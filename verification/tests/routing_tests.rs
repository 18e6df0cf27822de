use single_threaded_server::extractor::{params_to_query_string, Form, FromRequest,
    FromRequestBody, Json, Path, Query};
use single_threaded_server::response::{get_common_headers_with_content_type_header, ContentType,
    Response, StatusCode, StatusMessage};
use single_threaded_server::message::{LineKind, Parser};
use single_threaded_server::mock::MockStream;
use single_threaded_server::routing::{dispatch_request, Dispatch, HttpVerb, RoutingError,
    RoutingMap};

fn parse_request(bytes: &[u8]) -> single_threaded_server::message::Request {
    let mut stream = MockStream::new(bytes.to_vec());
    let mut parser = Parser::new(LineKind::Request);
    parser.parse(&mut stream).unwrap();
    parser.create_request_payload()
}

#[test]
fn registered_route_resolves_with_captures() {
    let mut map = RoutingMap::new();
    let id = map.add_handler(HttpVerb::GET, "/{id}/{name}").unwrap();
    assert_eq!(id, 0);
    let (handler, params) = map.get_handler(HttpVerb::GET, b"/42/bob").unwrap();
    assert_eq!(handler, 0);
    assert_eq!(params.len(), 2);
    assert_eq!(params[0].0.as_slice(), b"id");
    assert_eq!(params[0].1.as_slice(), b"42");
    assert_eq!(params[1].0.as_slice(), b"name");
    assert_eq!(params[1].1.as_slice(), b"bob");
}

#[test]
fn handler_ids_count_up_per_registration() {
    let mut map = RoutingMap::new();
    assert_eq!(map.add_handler(HttpVerb::GET, "/a").unwrap(), 0);
    assert_eq!(map.add_handler(HttpVerb::POST, "/a").unwrap(), 1);
    assert_eq!(map.add_handler(HttpVerb::GET, "/b").unwrap(), 2);
    assert_eq!(map.get_handler(HttpVerb::GET, b"/b").unwrap().0, 2);
    assert_eq!(map.get_handler(HttpVerb::POST, b"/a").unwrap().0, 1);
}

#[test]
fn duplicate_route_conflicts() {
    let mut map = RoutingMap::new();
    map.add_handler(HttpVerb::GET, "/a/b").unwrap();
    let r = map.add_handler(HttpVerb::GET, "/a/b");
    assert!(matches!(r, Err(RoutingError::RouteConflict)));
}

#[test]
fn routes_differing_only_in_capture_name_conflict_as_equivalent_patterns() {
    let mut map = RoutingMap::new();
    map.add_handler(HttpVerb::GET, "/x/{id}").unwrap();
    // "/x/{name}" matches exactly the same paths, so registering it is a
    // conflict, not a second route.
    let r = map.add_handler(HttpVerb::GET, "/x/{name}");
    assert!(matches!(r, Err(RoutingError::RouteConflict)));
}

#[test]
fn same_template_on_another_method_does_not_conflict() {
    let mut map = RoutingMap::new();
    map.add_handler(HttpVerb::GET, "/x/{id}").unwrap();
    assert!(map.add_handler(HttpVerb::POST, "/x/{id}").is_ok());
}

#[test]
fn unknown_path_is_not_found() {
    let mut map = RoutingMap::new();
    map.add_handler(HttpVerb::GET, "/known").unwrap();
    assert!(map.get_handler(HttpVerb::GET, b"/nope").is_none());
    assert!(map.get_handler(HttpVerb::POST, b"/known").is_none());
}

#[test]
fn dispatch_options_is_preflight() {
    let map = RoutingMap::new();
    let req = parse_request(b"OPTIONS /anything HTTP/1.1\r\nHost: x\r\n\r\n");
    assert!(matches!(dispatch_request(&map, &req), Dispatch::Preflight));
}

#[test]
fn dispatch_unknown_route_is_not_found() {
    let map = RoutingMap::new();
    let req = parse_request(b"GET /nope HTTP/1.1\r\nHost: x\r\n\r\n");
    assert!(matches!(dispatch_request(&map, &req), Dispatch::NotFound));
}

#[test]
fn dispatch_matches_route_and_strips_query() {
    let mut map = RoutingMap::new();
    let id = map.add_handler(HttpVerb::GET, "/{id}/{name}").unwrap();
    let req = parse_request(b"GET /42/bob?k=v HTTP/1.1\r\nHost: x\r\n\r\n");
    match dispatch_request(&map, &req) {
        Dispatch::Handler(h, params) => {
            assert_eq!(h, id);
            assert_eq!(params[0].1.as_slice(), b"42");
            assert_eq!(params[1].1.as_slice(), b"bob");
        }
        other => panic!("expected a handler, got {:?}", kind_of(&other)),
    }
}

fn kind_of(d: &Dispatch) -> &'static str {
    match d {
        Dispatch::Preflight => "preflight",
        Dispatch::NotFound => "not found",
        Dispatch::Handler(..) => "handler",
    }
}

#[test]
fn captures_render_as_a_query_string() {
    let params = vec![
        (b"id".to_vec(), b"42".to_vec()),
        (b"name".to_vec(), b"bob".to_vec()),
    ];
    assert_eq!(params_to_query_string(&params), b"id=42&name=bob".to_vec());
    let empty: Vec<(Vec<u8>, Vec<u8>)> = vec![];
    assert_eq!(params_to_query_string(&empty), Vec::<u8>::new());
}

#[test]
fn query_extractor_returns_raw_query() {
    let map = RoutingMap::new();
    let req = parse_request(b"GET /a?user=bo&pw=x HTTP/1.1\r\nHost: x\r\n\r\n");
    let Query(q) = Query::<Vec<u8>>::from_request(&req, &map).unwrap();
    assert_eq!(q, b"user=bo&pw=x".to_vec());
}

#[test]
fn path_extractor_reruns_the_lookup() {
    let mut map = RoutingMap::new();
    map.add_handler(HttpVerb::GET, "/{id}/{name}").unwrap();
    let req = parse_request(b"GET /7/zoe?k=v HTTP/1.1\r\nHost: x\r\n\r\n");
    let Path(params) = Path::<Vec<(Vec<u8>, Vec<u8>)>>::from_request(&req, &map).unwrap();
    assert_eq!(params_to_query_string(&params), b"id=7&name=zoe".to_vec());
}

#[test]
fn path_extractor_misses_without_route() {
    let map = RoutingMap::new();
    let req = parse_request(b"GET /7/zoe HTTP/1.1\r\nHost: x\r\n\r\n");
    let r = Path::<Vec<(Vec<u8>, Vec<u8>)>>::from_request(&req, &map);
    assert!(matches!(r, Err(RoutingError::NotFound)));
}

#[test]
fn json_extractor_checks_the_media_type() {
    let good = parse_request(
        b"POST /e HTTP/1.1\r\nContent-Type: application/json\r\nContent-Length: 8\r\n\r\n{\"n\":42}",
    );
    let Json(body) = Json::<Vec<u8>>::from_request_body(&good).unwrap();
    assert_eq!(body, b"{\"n\":42}".to_vec());

    let bad = parse_request(
        b"POST /e HTTP/1.1\r\nContent-Type: text/plain\r\nContent-Length: 2\r\n\r\nhi",
    );
    assert!(Json::<Vec<u8>>::from_request_body(&bad).is_err());
}

#[test]
fn form_extractor_checks_the_media_type() {
    let good = parse_request(
        b"POST /e HTTP/1.1\r\nContent-Type: application/x-www-form-urlencoded\r\nContent-Length: 7\r\n\r\nuser=bo",
    );
    let Form(body) = Form::<Vec<u8>>::from_request_body(&good).unwrap();
    assert_eq!(body, b"user=bo".to_vec());

    let missing = parse_request(b"POST /e HTTP/1.1\r\nContent-Length: 2\r\n\r\nhi");
    assert!(Form::<Vec<u8>>::from_request_body(&missing).is_err());
}

#[test]
fn captures_decode_through_the_form_decoder() {
    let mut map = RoutingMap::new();
    map.add_handler(HttpVerb::GET, "/{id}/{name}").unwrap();
    let req = parse_request(b"GET /7/zoe HTTP/1.1\r\nHost: x\r\n\r\n");
    let Path(params) = Path::<Vec<(Vec<u8>, Vec<u8>)>>::from_request(&req, &map).unwrap();
    let pseudo_query = params_to_query_string(&params);
    let decoded: Vec<(String, String)> = serde_urlencoded::from_bytes(&pseudo_query).unwrap();
    assert_eq!(
        decoded,
        vec![
            ("id".to_string(), "7".to_string()),
            ("name".to_string(), "zoe".to_string()),
        ]
    );
}

#[test]
fn json_extractor_output_decodes_as_json() {
    let req = parse_request(
        b"POST /e HTTP/1.1\r\nContent-Type: application/json\r\nContent-Length: 8\r\n\r\n{\"n\":42}",
    );
    let Json(raw) = Json::<Vec<u8>>::from_request_body(&req).unwrap();
    let value: serde_json::Value = serde_json::from_slice(&raw).unwrap();
    assert_eq!(value["n"], serde_json::Value::from(42u32));
}

#[test]
fn query_extractor_output_decodes_as_pairs() {
    let map = RoutingMap::new();
    let req = parse_request(b"GET /a?user=bo&pw=x HTTP/1.1\r\nHost: x\r\n\r\n");
    let Query(raw) = Query::<Vec<u8>>::from_request(&req, &map).unwrap();
    let decoded: Vec<(String, String)> = serde_urlencoded::from_bytes(&raw).unwrap();
    assert_eq!(
        decoded,
        vec![
            ("user".to_string(), "bo".to_string()),
            ("pw".to_string(), "x".to_string()),
        ]
    );
}

#[test]
fn registered_json_echo_round_trip() {
    // One request, end to end: parse, dispatch, run a JSON echo handler,
    // and put the response on the wire.
    let mut map = RoutingMap::new();
    let echo_id = map.add_handler(HttpVerb::POST, "/echo").unwrap();

    let req = parse_request(
        b"POST /echo HTTP/1.1\r\nHost: x\r\nContent-Type: application/json\r\nContent-Length: 8\r\n\r\n{\"n\":42}",
    );
    let response = match dispatch_request(&map, &req) {
        Dispatch::Handler(id, _params) => {
            assert_eq!(id, echo_id);
            let Json(raw) = Json::<Vec<u8>>::from_request_body(&req).unwrap();
            let headers =
                get_common_headers_with_content_type_header(&raw, ContentType::ApplicationJson);
            Response::new(StatusMessage::Okay, StatusCode::Okay, headers, raw)
        }
        _ => panic!("expected the echo handler"),
    };
    let wire = response.to_bytes();

    let mut stream = MockStream::new(wire);
    let mut parser = Parser::new(LineKind::Response);
    parser.parse(&mut stream).unwrap();
    let parsed = parser.create_response_payload();
    assert_eq!(parsed.response_line().status_code().as_slice(), b"200");
    assert_eq!(parsed.body(), b"{\"n\":42}");
    assert_eq!(
        parsed.headers().get(b"content-type").unwrap().as_slice(),
        b"application/json"
    );
    assert_eq!(parsed.headers().get(b"content-length").unwrap().as_slice(), b"8");
}

#[test]
fn head_requests_do_not_take_the_preflight_path() {
    let mut map = RoutingMap::new();
    let req = parse_request(b"HEAD /thing HTTP/1.1\r\nHost: x\r\n\r\n");
    assert!(matches!(dispatch_request(&map, &req), Dispatch::NotFound));
    let id = map.add_handler(HttpVerb::HEAD, "/thing").unwrap();
    match dispatch_request(&map, &req) {
        Dispatch::Handler(h, params) => {
            assert_eq!(h, id);
            assert!(params.is_empty());
        }
        _ => panic!("expected the HEAD handler"),
    }
}

#[test]
fn inadmissible_routes_are_rejected_before_the_tree() {
    let mut map = RoutingMap::new();
    // more capture openers than the tree's per-route renaming can carry
    let mut wide = String::new();
    for i in 0..26 {
        wide.push_str(&format!("/{{p{}}}", i));
    }
    assert!(matches!(
        map.add_handler(HttpVerb::GET, wide.as_str()),
        Err(RoutingError::InvalidRoute)
    ));
    // a non-ASCII route is refused too
    assert!(matches!(
        map.add_handler(HttpVerb::GET, "/caf\u{e9}"),
        Err(RoutingError::InvalidRoute)
    ));
    // a failed registration assigns no id
    assert_eq!(map.add_handler(HttpVerb::GET, "/fine").unwrap(), 0);
}
