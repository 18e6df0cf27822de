//! Extractors: the pieces that pull typed values out of a parsed request.
//!
//! The verified extractors work on raw bytes: the query string, the route
//! captures, and the body after its media type has been checked. Decoding
//! those bytes into user-defined types is left to the caller, which hands
//! the raw value to its structural decoder.
use vstd::prelude::*;

use crate::headers::hm_lookup;
use crate::message::{spec_query_string, Request};
use crate::response::{content_type_value, ct_key, get_common_headers_with_content_type_header,
    common_entries_with_content_type, ContentType, IntoResponse, Response, StatusCode,
    StatusMessage};
use crate::routing::{pairs_view, router_at_spec, RoutingError, RoutingMap};

verus! {

pub const EQUALS: u8 = 61;
pub const AMP: u8 = 38;

/// A value decoded from a JSON body; in verified code, the raw body bytes
/// after the media-type check.
pub struct Json<T>(pub T);

/// A value decoded from a form-encoded body; in verified code, the raw
/// body bytes after the media-type check.
pub struct Form<T>(pub T);

/// A value decoded from the query string; in verified code, the raw query
/// bytes.
pub struct Query<T>(pub T);

/// A value decoded from the route captures; in verified code, the raw
/// (name, value) pairs.
pub struct Path<T>(pub T);

/// Why a body extractor refused a request.
#[derive(Clone, Copy, Debug, PartialEq, Eq, Structural)]
pub enum BodyContentError {
    ContentTypeMisMatch,
    JsonSerializationError,
    UrlEncodedFormSerialization,
}

/// An extractor that reads the request without consuming the body.
pub trait FromRequest: Sized {
    type Error;

    fn from_request(request: &Request, routing: &RoutingMap) -> Result<Self, Self::Error>;
}

/// An extractor that consumes the body, after checking the media type.
pub trait FromRequestBody: Sized {
    type Error;

    fn from_request_body(request: &Request) -> Result<Self, Self::Error>;
}

impl FromRequest for Query<Vec<u8>> {
    type Error = RoutingError;

    /// The raw query string: what follows the first `?` of the target.
    fn from_request(request: &Request, _routing: &RoutingMap) -> (r: Result<Self, RoutingError>)
        ensures
            match r {
                Ok(q) => q.0@ == spec_query_string(request.target_view()),
                Err(_) => false,
            },
    {
        let q = request.query_params_string();
        Ok(Query(vstd::slice::slice_to_vec(q)))
    }
}

impl FromRequest for Path<Vec<(Vec<u8>, Vec<u8>)>> {
    type Error = RoutingError;

    /// The captures of the route that matches this request, by re-running
    /// the lookup for its method and path.
    fn from_request(request: &Request, routing: &RoutingMap) -> (r: Result<Self, RoutingError>)
        ensures
            match r {
                Ok(p) => router_at_spec(
                    routing.router_view(crate::routing::spec_verb_of(request.method_view())),
                    crate::message::spec_request_path(request.target_view()),
                ) matches Some(m) && m.1 == pairs_view(p.0@),
                Err(e) => e == RoutingError::NotFound && router_at_spec(
                    routing.router_view(crate::routing::spec_verb_of(request.method_view())),
                    crate::message::spec_request_path(request.target_view()),
                ) is None,
            },
    {
        let verb = request.request_method();
        let path = request.request_path();
        match routing.get_handler(verb, path) {
            Some((id, params)) => {
                proof {
                    let rv = routing.router_view(
                        crate::routing::spec_verb_of(request.method_view()),
                    );
                    assert(router_at_spec(
                        rv,
                        crate::message::spec_request_path(request.target_view()),
                    ) == Some((id as int, pairs_view(params@))));
                }
                Ok(Path(params))
            },
            None => Err(RoutingError::NotFound),
        }
    }
}

impl FromRequestBody for Json<Vec<u8>> {
    type Error = BodyContentError;

    /// The raw body bytes, provided the request declares a JSON body.
    fn from_request_body(request: &Request) -> (r: Result<Self, BodyContentError>)
        ensures
            match r {
                Ok(j) => hm_lookup(request.headers_view(), ct_key()) == Some(
                    content_type_value(ContentType::ApplicationJson),
                ) && j.0@ == request.body_view(),
                Err(e) => e == BodyContentError::ContentTypeMisMatch && hm_lookup(
                    request.headers_view(),
                    ct_key(),
                ) != Some(content_type_value(ContentType::ApplicationJson)),
            },
    {
        match body_with_content_type(request, ContentType::ApplicationJson) {
            Some(b) => Ok(Json(b)),
            None => Err(BodyContentError::ContentTypeMisMatch),
        }
    }
}

impl FromRequestBody for Form<Vec<u8>> {
    type Error = BodyContentError;

    /// The raw body bytes, provided the request declares a form-encoded
    /// body.
    fn from_request_body(request: &Request) -> (r: Result<Self, BodyContentError>)
        ensures
            match r {
                Ok(f) => hm_lookup(request.headers_view(), ct_key()) == Some(
                    content_type_value(ContentType::ApplicationUrlEncoded),
                ) && f.0@ == request.body_view(),
                Err(e) => e == BodyContentError::ContentTypeMisMatch && hm_lookup(
                    request.headers_view(),
                    ct_key(),
                ) != Some(content_type_value(ContentType::ApplicationUrlEncoded)),
            },
    {
        match body_with_content_type(request, ContentType::ApplicationUrlEncoded) {
            Some(b) => Ok(Form(b)),
            None => Err(BodyContentError::ContentTypeMisMatch),
        }
    }
}

/// The body bytes when the request's `content-type` equals the given
/// media type, else nothing.
pub fn body_with_content_type(request: &Request, expected: ContentType) -> (r: Option<Vec<u8>>)
    ensures
        match r {
            Some(b) => hm_lookup(request.headers_view(), ct_key()) == Some(
                content_type_value(expected),
            ) && b@ == request.body_view(),
            None => hm_lookup(request.headers_view(), ct_key()) != Some(
                content_type_value(expected),
            ),
        },
{
    let ctk: [u8; 12] = [99, 111, 110, 116, 101, 110, 116, 45, 116, 121, 112, 101];
    proof {
        assert(ctk@ =~= ct_key());
        assert(crate::bytes::lower_bytes(ctk@) =~= ctk@);
    }
    let expected_bytes = expected.value_bytes();
    match request.header(ctk.as_slice()) {
        Some(v) => {
            if crate::bytes::bytes_eq(v.as_slice(), expected_bytes.as_slice()) {
                Some(vstd::slice::slice_to_vec(request.body()))
            } else {
                None
            }
        },
        None => None,
    }
}

/// Route captures rendered as a query string: `name=value` pairs joined
/// by `&`.
pub open spec fn spec_params_query(ps: Seq<(Seq<u8>, Seq<u8>)>) -> Seq<u8>
    decreases ps.len(),
{
    if ps.len() == 0 {
        Seq::empty()
    } else if ps.len() == 1 {
        ps[0].0 + seq![EQUALS] + ps[0].1
    } else {
        ps[0].0 + seq![EQUALS] + ps[0].1 + seq![AMP] + spec_params_query(ps.skip(1))
    }
}

/// The first `i` captures rendered as a query string.
pub open spec fn spec_params_partial(ps: Seq<(Seq<u8>, Seq<u8>)>, i: int) -> Seq<u8>
    decreases i,
{
    if i <= 0 {
        Seq::empty()
    } else if i == 1 {
        ps[0].0 + seq![EQUALS] + ps[0].1
    } else {
        spec_params_partial(ps, i - 1) + seq![AMP] + (ps[i - 1].0 + seq![EQUALS] + ps[i - 1].1)
    }
}

proof fn lemma_params_shift(ps: Seq<(Seq<u8>, Seq<u8>)>, i: int)
    requires
        2 <= i <= ps.len(),
    ensures
        spec_params_partial(ps, i) == ps[0].0 + seq![EQUALS] + ps[0].1 + seq![AMP]
            + spec_params_partial(ps.skip(1), i - 1),
    decreases i,
{
    if i == 2 {
        assert(ps.skip(1)[0] == ps[1]);
        assert(spec_params_partial(ps, 1) == ps[0].0 + seq![EQUALS] + ps[0].1);
        assert(spec_params_partial(ps, 2) == spec_params_partial(ps, 1) + seq![AMP] + (ps[1].0
            + seq![EQUALS] + ps[1].1));
        assert(spec_params_partial(ps.skip(1), 1) == ps.skip(1)[0].0 + seq![EQUALS] + ps.skip(
            1,
        )[0].1);
    } else {
        lemma_params_shift(ps, i - 1);
        assert(ps.skip(1)[i - 2] == ps[i - 1]);
        assert((ps[0].0 + seq![EQUALS] + ps[0].1 + seq![AMP] + spec_params_partial(
            ps.skip(1),
            i - 2,
        )) + seq![AMP] + (ps[i - 1].0 + seq![EQUALS] + ps[i - 1].1) =~= ps[0].0 + seq![EQUALS]
            + ps[0].1 + seq![AMP] + (spec_params_partial(ps.skip(1), i - 2) + seq![AMP] + (ps[i
            - 1].0 + seq![EQUALS] + ps[i - 1].1)));
    }
}

proof fn lemma_params_partial_full(ps: Seq<(Seq<u8>, Seq<u8>)>)
    ensures
        ps.len() > 0 ==> spec_params_partial(ps, ps.len() as int) == spec_params_query(ps),
    decreases ps.len(),
{
    if ps.len() > 1 {
        lemma_params_partial_full(ps.skip(1));
        lemma_params_shift(ps, ps.len() as int);
        assert(spec_params_query(ps) == ps[0].0 + seq![EQUALS] + ps[0].1 + seq![AMP]
            + spec_params_query(ps.skip(1)));
    }
}

/// Renders route captures as the query string the structural decoder
/// consumes.
pub fn params_to_query_string(params: &Vec<(Vec<u8>, Vec<u8>)>) -> (r: Vec<u8>)
    ensures
        r@ == spec_params_query(pairs_view(params@)),
{
    let ghost ps = pairs_view(params@);
    let n = params.len();
    let mut out: Vec<u8> = Vec::new();
    if n == 0 {
        proof {
            assert(out@ =~= spec_params_query(ps));
        }
        return out;
    }
    let mut i: usize = 0;
    while i < n
        invariant
            n == params@.len(),
            n >= 1,
            ps == pairs_view(params@),
            i <= n,
            out@ == spec_params_partial(ps, i as int),
        decreases n - i,
    {
        if i > 0 {
            out.push(AMP);
        }
        let e = &params[i];
        crate::bytes::append_bytes(&mut out, e.0.as_slice());
        out.push(EQUALS);
        crate::bytes::append_bytes(&mut out, e.1.as_slice());
        proof {
            if i == 0 {
                assert(out@ =~= spec_params_partial(ps, 1));
            } else {
                assert(out@ =~= spec_params_partial(ps, i + 1));
            }
        }
        i = i + 1;
    }
    proof {
        lemma_params_partial_full(ps);
    }
    out
}

/// "content type mismatch"
pub open spec fn mismatch_message() -> Seq<u8> {
    seq![99u8, 111u8, 110u8, 116u8, 101u8, 110u8, 116u8, 32u8, 116u8, 121u8, 112u8, 101u8, 32u8, 109u8, 105u8, 115u8, 109u8, 97u8, 116u8, 99u8, 104u8]
}

/// "Not Found or url encoded error"
pub open spec fn not_found_message() -> Seq<u8> {
    seq![78u8, 111u8, 116u8, 32u8, 70u8, 111u8, 117u8, 110u8, 100u8, 32u8, 111u8, 114u8, 32u8, 117u8, 114u8, 108u8, 32u8, 101u8, 110u8, 99u8, 111u8, 100u8, 101u8, 100u8, 32u8, 101u8, 114u8, 114u8, 111u8, 114u8]
}

impl IntoResponse for BodyContentError {
    /// Every body-extractor failure answers 400 with a short plain-text
    /// message.
    fn into_response(self) -> (r: Response)
        ensures
            r.status_view() == StatusCode::BadRequest,
            r.body_view() == mismatch_message(),
            r.headers_view() == common_entries_with_content_type(
                mismatch_message().len() as int,
                ContentType::TextPlain,
            ),
    {
        let message: [u8; 21] = [99, 111, 110, 116, 101, 110, 116, 32, 116, 121, 112, 101, 32, 109, 105, 115, 109, 97, 116, 99, 104];
        proof {
            assert(message@ =~= mismatch_message());
        }
        let headers = get_common_headers_with_content_type_header(
            message.as_slice(),
            ContentType::TextPlain,
        );
        Response::new(
            StatusMessage::BadRequest,
            StatusCode::BadRequest,
            headers,
            vstd::slice::slice_to_vec(message.as_slice()),
        )
    }
}

impl IntoResponse for RoutingError {
    /// A routing failure answers 400 with a short plain-text message.
    fn into_response(self) -> (r: Response)
        ensures
            r.status_view() == StatusCode::BadRequest,
            r.body_view() == not_found_message(),
            r.headers_view() == common_entries_with_content_type(
                not_found_message().len() as int,
                ContentType::TextPlain,
            ),
    {
        let message: [u8; 30] = [78, 111, 116, 32, 70, 111, 117, 110, 100, 32, 111, 114, 32, 117, 114, 108, 32, 101, 110, 99, 111, 100, 101, 100, 32, 101, 114, 114, 111, 114];
        proof {
            assert(message@ =~= not_found_message());
        }
        let headers = get_common_headers_with_content_type_header(
            message.as_slice(),
            ContentType::TextPlain,
        );
        Response::new(
            StatusMessage::BadRequest,
            StatusCode::BadRequest,
            headers,
            vstd::slice::slice_to_vec(message.as_slice()),
        )
    }
}

} // verus!
