//! Outgoing responses: status codes with their canonical reason phrases,
//! media types, the fixed header sets the server emits, and the functions
//! that render a status line and a header block into wire bytes.
use vstd::prelude::*;

use crate::bytes::{append_bytes, dec_bytes, lower_bytes, spec_dec_digits};
use crate::first_line::ResponseLine;
use crate::headers::{render_headers, write_header_block, HeaderMap};

verus! {

/// The status codes the server emits.
#[derive(Clone, Copy, Debug, PartialEq, Eq, Structural)]
pub enum StatusCode {
    Okay,
    BadRequest,
    InternalServerError,
    NotFound,
    MethodNotAllowed,
}

/// Reason phrases, kept as a closed catalogue.
#[derive(Clone, Copy, Debug, PartialEq, Eq, Structural)]
pub enum StatusMessage {
    Continue,
    SwitchingProtocols,
    Processing,
    EarlyHints,
    Okay,
    Created,
    Accepted,
    NonAuthoritativeInformation,
    NoContent,
    ResetContent,
    PartialContent,
    MultiStatus,
    AlreadyReported,
    ImUsed,
    MultipleChoices,
    MovedPermanently,
    Found,
    SeeOther,
    NotModified,
    UseProxy,
    TemporaryRedirect,
    PermanentRedirect,
    BadRequest,
    Unauthorized,
    PaymentRequired,
    Forbidden,
    NotFound,
    MethodNotAllowed,
    NotAcceptable,
    ProxyAuthenticationRequired,
    RequestTimeout,
    Conflict,
    Gone,
    LengthRequired,
    PreconditionFailed,
    PayloadTooLarge,
    UriTooLong,
    UnsupportedMediaType,
    RangeNotSatisfiable,
    ExpectationFailed,
    ImATeapot,
    MisdirectedRequest,
    UnprocessableEntity,
    Locked,
    FailedDependency,
    TooEarly,
    UpgradeRequired,
    PreconditionRequired,
    TooManyRequests,
    RequestHeaderFieldsTooLarge,
    UnavailableForLegalReasons,
    InternalServerError,
    NotImplemented,
    BadGateway,
    ServiceUnavailable,
    GatewayTimeout,
    HttpVersionNotSupported,
    VariantAlsoNegotiates,
    InsufficientStorage,
    LoopDetected,
    NotExtended,
    NetworkAuthenticationRequired,
}

/// The media types the server can label a body with.
#[derive(Clone, Copy, Debug, PartialEq, Eq, Structural)]
pub enum ContentType {
    ApplicationJson,
    ApplicationUrlEncoded,
    TextPlain,
    ImageJpeg,
    TextHtml,
}

/// The canonical status line for each status code, CRLF included.
pub open spec fn status_line_bytes(status: StatusCode) -> Seq<u8> {
    match status {
        StatusCode::Okay => seq![72u8, 84u8, 84u8, 80u8, 47u8, 49u8, 46u8, 49u8, 32u8, 50u8, 48u8, 48u8, 32u8, 79u8, 75u8, 13u8, 10u8],
        StatusCode::BadRequest => seq![72u8, 84u8, 84u8, 80u8, 47u8, 49u8, 46u8, 49u8, 32u8, 52u8, 48u8, 48u8, 32u8, 66u8, 97u8, 100u8, 32u8, 82u8, 101u8, 113u8, 117u8, 101u8, 115u8, 116u8, 13u8, 10u8],
        StatusCode::NotFound => seq![72u8, 84u8, 84u8, 80u8, 47u8, 49u8, 46u8, 49u8, 32u8, 52u8, 48u8, 52u8, 32u8, 78u8, 111u8, 116u8, 32u8, 70u8, 111u8, 117u8, 110u8, 100u8, 13u8, 10u8],
        StatusCode::MethodNotAllowed => seq![72u8, 84u8, 84u8, 80u8, 47u8, 49u8, 46u8, 49u8, 32u8, 52u8, 48u8, 53u8, 32u8, 77u8, 101u8, 116u8, 104u8, 111u8, 100u8, 32u8, 78u8, 111u8, 116u8, 32u8, 65u8, 108u8, 108u8, 111u8, 119u8, 101u8, 100u8, 13u8, 10u8],
        StatusCode::InternalServerError => seq![72u8, 84u8, 84u8, 80u8, 47u8, 49u8, 46u8, 49u8, 32u8, 53u8, 48u8, 48u8, 32u8, 73u8, 110u8, 116u8, 101u8, 114u8, 110u8, 97u8, 108u8, 32u8, 83u8, 101u8, 114u8, 118u8, 101u8, 114u8, 32u8, 69u8, 114u8, 114u8, 111u8, 114u8, 13u8, 10u8],
    }
}

/// The full `Content-Type` header line for each media type.
pub open spec fn content_type_line(ct: ContentType) -> Seq<u8> {
    match ct {
        ContentType::ApplicationJson => seq![67u8, 111u8, 110u8, 116u8, 101u8, 110u8, 116u8, 45u8, 84u8, 121u8, 112u8, 101u8, 58u8, 32u8, 97u8, 112u8, 112u8, 108u8, 105u8, 99u8, 97u8, 116u8, 105u8, 111u8, 110u8, 47u8, 106u8, 115u8, 111u8, 110u8, 59u8, 32u8, 99u8, 104u8, 97u8, 114u8, 115u8, 101u8, 116u8, 61u8, 117u8, 116u8, 102u8, 45u8, 56u8, 13u8, 10u8],
        ContentType::ImageJpeg => seq![67u8, 111u8, 110u8, 116u8, 101u8, 110u8, 116u8, 45u8, 84u8, 121u8, 112u8, 101u8, 58u8, 32u8, 105u8, 109u8, 97u8, 103u8, 101u8, 47u8, 106u8, 112u8, 101u8, 103u8, 13u8, 10u8],
        ContentType::TextHtml => seq![67u8, 111u8, 110u8, 116u8, 101u8, 110u8, 116u8, 45u8, 84u8, 121u8, 112u8, 101u8, 58u8, 32u8, 116u8, 101u8, 120u8, 116u8, 47u8, 104u8, 116u8, 109u8, 108u8, 59u8, 32u8, 99u8, 104u8, 97u8, 114u8, 115u8, 101u8, 116u8, 61u8, 117u8, 116u8, 102u8, 45u8, 56u8, 13u8, 10u8],
        ContentType::TextPlain => seq![67u8, 111u8, 110u8, 116u8, 101u8, 110u8, 116u8, 45u8, 84u8, 121u8, 112u8, 101u8, 58u8, 32u8, 116u8, 101u8, 120u8, 116u8, 47u8, 112u8, 108u8, 97u8, 105u8, 110u8, 59u8, 32u8, 99u8, 104u8, 97u8, 114u8, 115u8, 101u8, 116u8, 61u8, 117u8, 116u8, 102u8, 45u8, 56u8, 13u8, 10u8],
        ContentType::ApplicationUrlEncoded => seq![67u8, 111u8, 110u8, 116u8, 101u8, 110u8, 116u8, 45u8, 84u8, 121u8, 112u8, 101u8, 58u8, 32u8, 97u8, 112u8, 112u8, 108u8, 105u8, 99u8, 97u8, 116u8, 105u8, 111u8, 110u8, 47u8, 120u8, 45u8, 119u8, 119u8, 119u8, 45u8, 102u8, 111u8, 114u8, 109u8, 45u8, 117u8, 114u8, 108u8, 101u8, 110u8, 99u8, 111u8, 100u8, 101u8, 100u8, 59u8, 32u8, 99u8, 104u8, 97u8, 114u8, 115u8, 101u8, 116u8, 61u8, 117u8, 116u8, 102u8, 45u8, 56u8, 13u8, 10u8],
    }
}

/// The bare media-type value for each media type.
pub open spec fn content_type_value(ct: ContentType) -> Seq<u8> {
    match ct {
        ContentType::ApplicationJson => seq![97u8, 112u8, 112u8, 108u8, 105u8, 99u8, 97u8, 116u8, 105u8, 111u8, 110u8, 47u8, 106u8, 115u8, 111u8, 110u8],
        ContentType::ImageJpeg => seq![105u8, 109u8, 97u8, 103u8, 101u8, 47u8, 106u8, 112u8, 101u8, 103u8],
        ContentType::TextHtml => seq![116u8, 101u8, 120u8, 116u8, 47u8, 104u8, 116u8, 109u8, 108u8],
        ContentType::TextPlain => seq![116u8, 101u8, 120u8, 116u8, 47u8, 112u8, 108u8, 97u8, 105u8, 110u8],
        ContentType::ApplicationUrlEncoded => seq![97u8, 112u8, 112u8, 108u8, 105u8, 99u8, 97u8, 116u8, 105u8, 111u8, 110u8, 47u8, 120u8, 45u8, 119u8, 119u8, 119u8, 45u8, 102u8, 111u8, 114u8, 109u8, 45u8, 117u8, 114u8, 108u8, 101u8, 110u8, 99u8, 111u8, 100u8, 101u8, 100u8],
    }
}

/// "access-control-allow-origin"
pub open spec fn acao_key() -> Seq<u8> {
    seq![97u8, 99u8, 99u8, 101u8, 115u8, 115u8, 45u8, 99u8, 111u8, 110u8, 116u8, 114u8, 111u8, 108u8, 45u8, 97u8, 108u8, 108u8, 111u8, 119u8, 45u8, 111u8, 114u8, 105u8, 103u8, 105u8, 110u8]
}

/// "https://hoppscotch.io"
pub open spec fn origin_val() -> Seq<u8> {
    seq![104u8, 116u8, 116u8, 112u8, 115u8, 58u8, 47u8, 47u8, 104u8, 111u8, 112u8, 112u8, 115u8, 99u8, 111u8, 116u8, 99u8, 104u8, 46u8, 105u8, 111u8]
}

/// "connection"
pub open spec fn conn_key() -> Seq<u8> {
    seq![99u8, 111u8, 110u8, 110u8, 101u8, 99u8, 116u8, 105u8, 111u8, 110u8]
}

/// "close"
pub open spec fn close_val() -> Seq<u8> {
    seq![99u8, 108u8, 111u8, 115u8, 101u8]
}

/// "content-type"
pub open spec fn ct_key() -> Seq<u8> {
    seq![99u8, 111u8, 110u8, 116u8, 101u8, 110u8, 116u8, 45u8, 116u8, 121u8, 112u8, 101u8]
}

/// "access-control-allow-methods"
pub open spec fn acam_key() -> Seq<u8> {
    seq![97u8, 99u8, 99u8, 101u8, 115u8, 115u8, 45u8, 99u8, 111u8, 110u8, 116u8, 114u8, 111u8, 108u8, 45u8, 97u8, 108u8, 108u8, 111u8, 119u8, 45u8, 109u8, 101u8, 116u8, 104u8, 111u8, 100u8, 115u8]
}

/// "access-control-allow-headers"
pub open spec fn acah_key() -> Seq<u8> {
    seq![97u8, 99u8, 99u8, 101u8, 115u8, 115u8, 45u8, 99u8, 111u8, 110u8, 116u8, 114u8, 111u8, 108u8, 45u8, 97u8, 108u8, 108u8, 111u8, 119u8, 45u8, 104u8, 101u8, 97u8, 100u8, 101u8, 114u8, 115u8]
}

/// "*"
pub open spec fn star_val() -> Seq<u8> {
    seq![42u8]
}

/// "0"
pub open spec fn zero_val() -> Seq<u8> {
    seq![48u8]
}

/// "text/plain"
pub open spec fn text_plain_val() -> Seq<u8> {
    seq![116u8, 101u8, 120u8, 116u8, 47u8, 112u8, 108u8, 97u8, 105u8, 110u8]
}

/// The headers of a CORS preflight answer, in emission order.
pub open spec fn preflight_entries() -> Seq<(Seq<u8>, Seq<u8>)> {
    seq![
        (crate::message::cl_key(), zero_val()),
        (ct_key(), text_plain_val()),
        (acao_key(), origin_val()),
        (acam_key(), star_val()),
        (acah_key(), star_val()),
        (conn_key(), close_val()),
    ]
}

/// The headers of a bodyless response, in emission order.
pub open spec fn common_entries() -> Seq<(Seq<u8>, Seq<u8>)> {
    seq![
        (acao_key(), origin_val()),
        (crate::message::cl_key(), zero_val()),
        (conn_key(), close_val()),
    ]
}

/// The headers of a fixed-body response carrying `body_len` bytes of the
/// given media type, in emission order.
pub open spec fn common_entries_with_content_type(body_len: int, ct: ContentType) -> Seq<
    (Seq<u8>, Seq<u8>),
> {
    seq![
        (acao_key(), origin_val()),
        (crate::message::cl_key(), spec_dec_digits(body_len)),
        (conn_key(), close_val()),
        (ct_key(), content_type_value(ct)),
    ]
}

impl ContentType {
    /// The full header line naming this media type.
    pub fn as_bytes(&self) -> (r: Vec<u8>)
        ensures
            r@ == content_type_line(*self),
    {
        let a: Vec<u8> = match self {
            ContentType::ApplicationJson => {
                let x: [u8; 47] = [67, 111, 110, 116, 101, 110, 116, 45, 84, 121, 112, 101, 58, 32, 97, 112, 112, 108, 105, 99, 97, 116, 105, 111, 110, 47, 106, 115, 111, 110, 59, 32, 99, 104, 97, 114, 115, 101, 116, 61, 117, 116, 102, 45, 56, 13, 10];
                vstd::slice::slice_to_vec(x.as_slice())
            },
            ContentType::ImageJpeg => {
                let x: [u8; 26] = [67, 111, 110, 116, 101, 110, 116, 45, 84, 121, 112, 101, 58, 32, 105, 109, 97, 103, 101, 47, 106, 112, 101, 103, 13, 10];
                vstd::slice::slice_to_vec(x.as_slice())
            },
            ContentType::TextHtml => {
                let x: [u8; 40] = [67, 111, 110, 116, 101, 110, 116, 45, 84, 121, 112, 101, 58, 32, 116, 101, 120, 116, 47, 104, 116, 109, 108, 59, 32, 99, 104, 97, 114, 115, 101, 116, 61, 117, 116, 102, 45, 56, 13, 10];
                vstd::slice::slice_to_vec(x.as_slice())
            },
            ContentType::TextPlain => {
                let x: [u8; 41] = [67, 111, 110, 116, 101, 110, 116, 45, 84, 121, 112, 101, 58, 32, 116, 101, 120, 116, 47, 112, 108, 97, 105, 110, 59, 32, 99, 104, 97, 114, 115, 101, 116, 61, 117, 116, 102, 45, 56, 13, 10];
                vstd::slice::slice_to_vec(x.as_slice())
            },
            ContentType::ApplicationUrlEncoded => {
                let x: [u8; 64] = [67, 111, 110, 116, 101, 110, 116, 45, 84, 121, 112, 101, 58, 32, 97, 112, 112, 108, 105, 99, 97, 116, 105, 111, 110, 47, 120, 45, 119, 119, 119, 45, 102, 111, 114, 109, 45, 117, 114, 108, 101, 110, 99, 111, 100, 101, 100, 59, 32, 99, 104, 97, 114, 115, 101, 116, 61, 117, 116, 102, 45, 56, 13, 10];
                vstd::slice::slice_to_vec(x.as_slice())
            },
        };
        proof {
            assert(a@ =~= content_type_line(*self));
        }
        a
    }

    /// The bare media-type value.
    pub fn value_bytes(&self) -> (r: Vec<u8>)
        ensures
            r@ == content_type_value(*self),
    {
        let a: Vec<u8> = match self {
            ContentType::ApplicationJson => {
                let x: [u8; 16] = [97, 112, 112, 108, 105, 99, 97, 116, 105, 111, 110, 47, 106, 115, 111, 110];
                vstd::slice::slice_to_vec(x.as_slice())
            },
            ContentType::ImageJpeg => {
                let x: [u8; 10] = [105, 109, 97, 103, 101, 47, 106, 112, 101, 103];
                vstd::slice::slice_to_vec(x.as_slice())
            },
            ContentType::TextHtml => {
                let x: [u8; 9] = [116, 101, 120, 116, 47, 104, 116, 109, 108];
                vstd::slice::slice_to_vec(x.as_slice())
            },
            ContentType::TextPlain => {
                let x: [u8; 10] = [116, 101, 120, 116, 47, 112, 108, 97, 105, 110];
                vstd::slice::slice_to_vec(x.as_slice())
            },
            ContentType::ApplicationUrlEncoded => {
                let x: [u8; 33] = [97, 112, 112, 108, 105, 99, 97, 116, 105, 111, 110, 47, 120, 45, 119, 119, 119, 45, 102, 111, 114, 109, 45, 117, 114, 108, 101, 110, 99, 111, 100, 101, 100];
                vstd::slice::slice_to_vec(x.as_slice())
            },
        };
        proof {
            assert(a@ =~= content_type_value(*self));
        }
        a
    }
}

/// Appends the canonical status line for `status`.
pub fn write_status_line(out: &mut Vec<u8>, status: StatusCode)
    ensures
        final(out)@ == old(out)@ + status_line_bytes(status),
{
    let a: Vec<u8> = match status {
        StatusCode::Okay => {
            let x: [u8; 17] = [72, 84, 84, 80, 47, 49, 46, 49, 32, 50, 48, 48, 32, 79, 75, 13, 10];
            vstd::slice::slice_to_vec(x.as_slice())
        },
        StatusCode::BadRequest => {
            let x: [u8; 26] = [72, 84, 84, 80, 47, 49, 46, 49, 32, 52, 48, 48, 32, 66, 97, 100, 32, 82, 101, 113, 117, 101, 115, 116, 13, 10];
            vstd::slice::slice_to_vec(x.as_slice())
        },
        StatusCode::NotFound => {
            let x: [u8; 24] = [72, 84, 84, 80, 47, 49, 46, 49, 32, 52, 48, 52, 32, 78, 111, 116, 32, 70, 111, 117, 110, 100, 13, 10];
            vstd::slice::slice_to_vec(x.as_slice())
        },
        StatusCode::MethodNotAllowed => {
            let x: [u8; 33] = [72, 84, 84, 80, 47, 49, 46, 49, 32, 52, 48, 53, 32, 77, 101, 116, 104, 111, 100, 32, 78, 111, 116, 32, 65, 108, 108, 111, 119, 101, 100, 13, 10];
            vstd::slice::slice_to_vec(x.as_slice())
        },
        StatusCode::InternalServerError => {
            let x: [u8; 36] = [72, 84, 84, 80, 47, 49, 46, 49, 32, 53, 48, 48, 32, 73, 110, 116, 101, 114, 110, 97, 108, 32, 83, 101, 114, 118, 101, 114, 32, 69, 114, 114, 111, 114, 13, 10];
            vstd::slice::slice_to_vec(x.as_slice())
        },
    };
    proof {
        assert(a@ =~= status_line_bytes(status));
    }
    append_bytes(out, a.as_slice());
}

/// Appends the canonical status line for `status`, taken by reference.
pub fn write_response_status_line(out: &mut Vec<u8>, status: &StatusCode)
    ensures
        final(out)@ == old(out)@ + status_line_bytes(*status),
{
    write_status_line(out, *status)
}

/// Appends a rendered header block, blank line included.
pub fn write_headers(out: &mut Vec<u8>, headers: &HeaderMap)
    ensures
        final(out)@ == old(out)@ + render_headers(headers@),
{
    write_header_block(out, headers)
}

/// Appends a rendered header block, blank line included.
pub fn write_response_headers(out: &mut Vec<u8>, headers: &HeaderMap)
    ensures
        final(out)@ == old(out)@ + render_headers(headers@),
{
    write_header_block(out, headers)
}

/// "HTTP/1.1 " followed by code, space, message, CRLF: how a parsed
/// status line is re-emitted toward a proxy client.
pub open spec fn proxied_status_line(code: Seq<u8>, message: Seq<u8>) -> Seq<u8> {
    seq![72u8, 84u8, 84u8, 80u8, 47u8, 49u8, 46u8, 49u8, 32u8] + code + seq![32u8] + message + seq![13u8, 10u8]
}

/// Re-emits a parsed status line with the fixed HTTP/1.1 version.
pub fn write_proxied_response_status_line(out: &mut Vec<u8>, response: &ResponseLine)
    ensures
        final(out)@ == old(out)@ + proxied_status_line(
            response.code_view(),
            response.message_view(),
        ),
{
    let pre: [u8; 9] = [72, 84, 84, 80, 47, 49, 46, 49, 32];
    append_bytes(out, pre.as_slice());
    append_bytes(out, response.status_code().as_slice());
    out.push(32);
    append_bytes(out, response.status_message().as_slice());
    out.push(13);
    out.push(10);
    proof {
        assert(out@ =~= old(out)@ + proxied_status_line(
            response.code_view(),
            response.message_view(),
        ));
    }
}

/// The fixed CORS preflight header set.
pub fn get_preflight_headers() -> (r: HeaderMap)
    ensures
        r.wf(),
        r@ == preflight_entries(),
{
    let mut m = HeaderMap::new();
    let clk: [u8; 14] = [99, 111, 110, 116, 101, 110, 116, 45, 108, 101, 110, 103, 116, 104];
    let ctk: [u8; 12] = [99, 111, 110, 116, 101, 110, 116, 45, 116, 121, 112, 101];
    let acaok: [u8; 27] = [97, 99, 99, 101, 115, 115, 45, 99, 111, 110, 116, 114, 111, 108, 45, 97, 108, 108, 111, 119, 45, 111, 114, 105, 103, 105, 110];
    let acamk: [u8; 28] = [97, 99, 99, 101, 115, 115, 45, 99, 111, 110, 116, 114, 111, 108, 45, 97, 108, 108, 111, 119, 45, 109, 101, 116, 104, 111, 100, 115];
    let acahk: [u8; 28] = [97, 99, 99, 101, 115, 115, 45, 99, 111, 110, 116, 114, 111, 108, 45, 97, 108, 108, 111, 119, 45, 104, 101, 97, 100, 101, 114, 115];
    let connk: [u8; 10] = [99, 111, 110, 110, 101, 99, 116, 105, 111, 110];
    let zerov: [u8; 1] = [48];
    let tpv: [u8; 10] = [116, 101, 120, 116, 47, 112, 108, 97, 105, 110];
    let originv: [u8; 21] = [104, 116, 116, 112, 115, 58, 47, 47, 104, 111, 112, 112, 115, 99, 111, 116, 99, 104, 46, 105, 111];
    let starv: [u8; 1] = [42];
    let closev: [u8; 5] = [99, 108, 111, 115, 101];
    proof {
        reveal(crate::message::cl_key);
        assert(clk@ =~= crate::message::cl_key());
        assert(ctk@ =~= ct_key());
        assert(acaok@ =~= acao_key());
        assert(acamk@ =~= acam_key());
        assert(acahk@ =~= acah_key());
        assert(connk@ =~= conn_key());
        assert(zerov@ =~= zero_val());
        assert(tpv@ =~= text_plain_val());
        assert(originv@ =~= origin_val());
        assert(starv@ =~= star_val());
        assert(closev@ =~= close_val());
        assert(lower_bytes(clk@) =~= clk@);
        assert(lower_bytes(ctk@) =~= ctk@);
        assert(lower_bytes(acaok@) =~= acaok@);
        assert(lower_bytes(acamk@) =~= acamk@);
        assert(lower_bytes(acahk@) =~= acahk@);
        assert(lower_bytes(connk@) =~= connk@);
    }
    proof {
        assert(acam_key()[21] != acah_key()[21]);
        assert(crate::message::cl_key() != ct_key());
        assert(crate::message::cl_key() != acao_key());
        assert(crate::message::cl_key() != acam_key());
        assert(crate::message::cl_key() != acah_key());
        assert(crate::message::cl_key() != conn_key());
        assert(ct_key() != acao_key());
        assert(ct_key() != acam_key());
        assert(ct_key() != acah_key());
        assert(ct_key() != conn_key());
        assert(acao_key() != acam_key());
        assert(acao_key() != acah_key());
        assert(acao_key() != conn_key());
        assert(acam_key() != acah_key());
        assert(acam_key() != conn_key());
        assert(acah_key() != conn_key());
    }
    m.insert_combining(
        vstd::slice::slice_to_vec(clk.as_slice()),
        vstd::slice::slice_to_vec(zerov.as_slice()),
    );
    proof {
        crate::headers::lemma_hm_insert_notfound(
            Seq::<(Seq<u8>, Seq<u8>)>::empty(),
            crate::message::cl_key(),
            zero_val(),
        );
        assert(m@ =~= seq![(crate::message::cl_key(), zero_val())]);
    }
    m.insert_combining(
        vstd::slice::slice_to_vec(ctk.as_slice()),
        vstd::slice::slice_to_vec(tpv.as_slice()),
    );
    proof {
        crate::headers::lemma_hm_insert_notfound(
            seq![(crate::message::cl_key(), zero_val())],
            ct_key(),
            text_plain_val(),
        );
        assert(m@ =~= seq![
            (crate::message::cl_key(), zero_val()),
            (ct_key(), text_plain_val()),
        ]);
    }
    m.insert_combining(
        vstd::slice::slice_to_vec(acaok.as_slice()),
        vstd::slice::slice_to_vec(originv.as_slice()),
    );
    proof {
        crate::headers::lemma_hm_insert_notfound(
            seq![(crate::message::cl_key(), zero_val()), (ct_key(), text_plain_val())],
            acao_key(),
            origin_val(),
        );
        assert(m@ =~= seq![
            (crate::message::cl_key(), zero_val()),
            (ct_key(), text_plain_val()),
            (acao_key(), origin_val()),
        ]);
    }
    m.insert_combining(
        vstd::slice::slice_to_vec(acamk.as_slice()),
        vstd::slice::slice_to_vec(starv.as_slice()),
    );
    proof {
        crate::headers::lemma_hm_insert_notfound(
            seq![
                (crate::message::cl_key(), zero_val()),
                (ct_key(), text_plain_val()),
                (acao_key(), origin_val()),
            ],
            acam_key(),
            star_val(),
        );
        assert(m@ =~= seq![
            (crate::message::cl_key(), zero_val()),
            (ct_key(), text_plain_val()),
            (acao_key(), origin_val()),
            (acam_key(), star_val()),
        ]);
    }
    m.insert_combining(
        vstd::slice::slice_to_vec(acahk.as_slice()),
        vstd::slice::slice_to_vec(starv.as_slice()),
    );
    proof {
        crate::headers::lemma_hm_insert_notfound(
            seq![
                (crate::message::cl_key(), zero_val()),
                (ct_key(), text_plain_val()),
                (acao_key(), origin_val()),
                (acam_key(), star_val()),
            ],
            acah_key(),
            star_val(),
        );
        assert(m@ =~= seq![
            (crate::message::cl_key(), zero_val()),
            (ct_key(), text_plain_val()),
            (acao_key(), origin_val()),
            (acam_key(), star_val()),
            (acah_key(), star_val()),
        ]);
    }
    m.insert_combining(
        vstd::slice::slice_to_vec(connk.as_slice()),
        vstd::slice::slice_to_vec(closev.as_slice()),
    );
    proof {
        crate::headers::lemma_hm_insert_notfound(
            seq![
                (crate::message::cl_key(), zero_val()),
                (ct_key(), text_plain_val()),
                (acao_key(), origin_val()),
                (acam_key(), star_val()),
                (acah_key(), star_val()),
            ],
            conn_key(),
            close_val(),
        );
        assert(m@ =~= preflight_entries());
    }
    m
}

/// The fixed header set of a bodyless response.
pub fn get_common_headers() -> (r: HeaderMap)
    ensures
        r.wf(),
        r@ == common_entries(),
{
    let mut m = HeaderMap::new();
    let acaok: [u8; 27] = [97, 99, 99, 101, 115, 115, 45, 99, 111, 110, 116, 114, 111, 108, 45, 97, 108, 108, 111, 119, 45, 111, 114, 105, 103, 105, 110];
    let clk: [u8; 14] = [99, 111, 110, 116, 101, 110, 116, 45, 108, 101, 110, 103, 116, 104];
    let connk: [u8; 10] = [99, 111, 110, 110, 101, 99, 116, 105, 111, 110];
    let originv: [u8; 21] = [104, 116, 116, 112, 115, 58, 47, 47, 104, 111, 112, 112, 115, 99, 111, 116, 99, 104, 46, 105, 111];
    let zerov: [u8; 1] = [48];
    let closev: [u8; 5] = [99, 108, 111, 115, 101];
    proof {
        reveal(crate::message::cl_key);
        assert(clk@ =~= crate::message::cl_key());
        assert(acaok@ =~= acao_key());
        assert(connk@ =~= conn_key());
        assert(zerov@ =~= zero_val());
        assert(originv@ =~= origin_val());
        assert(closev@ =~= close_val());
        assert(lower_bytes(clk@) =~= clk@);
        assert(lower_bytes(acaok@) =~= acaok@);
        assert(lower_bytes(connk@) =~= connk@);
    }
    proof {
        assert(crate::message::cl_key() != acao_key());
        assert(crate::message::cl_key() != conn_key());
        assert(acao_key() != conn_key());
    }
    m.insert_combining(
        vstd::slice::slice_to_vec(acaok.as_slice()),
        vstd::slice::slice_to_vec(originv.as_slice()),
    );
    proof {
        crate::headers::lemma_hm_insert_notfound(
            Seq::<(Seq<u8>, Seq<u8>)>::empty(),
            acao_key(),
            origin_val(),
        );
        assert(m@ =~= seq![(acao_key(), origin_val())]);
    }
    m.insert_combining(
        vstd::slice::slice_to_vec(clk.as_slice()),
        vstd::slice::slice_to_vec(zerov.as_slice()),
    );
    proof {
        crate::headers::lemma_hm_insert_notfound(
            seq![(acao_key(), origin_val())],
            crate::message::cl_key(),
            zero_val(),
        );
        assert(m@ =~= seq![(acao_key(), origin_val()), (crate::message::cl_key(), zero_val())]);
    }
    m.insert_combining(
        vstd::slice::slice_to_vec(connk.as_slice()),
        vstd::slice::slice_to_vec(closev.as_slice()),
    );
    proof {
        crate::headers::lemma_hm_insert_notfound(
            seq![(acao_key(), origin_val()), (crate::message::cl_key(), zero_val())],
            conn_key(),
            close_val(),
        );
        assert(m@ =~= common_entries());
    }
    m
}

/// The header set of a fixed-body response: origin, exact content length,
/// connection close, and the media type of `body`.
pub fn get_common_headers_with_content_type_header(body: &[u8], content_type: ContentType) -> (r:
    HeaderMap)
    ensures
        r.wf(),
        r@ == common_entries_with_content_type(body@.len() as int, content_type),
{
    let mut m = HeaderMap::new();
    let acaok: [u8; 27] = [97, 99, 99, 101, 115, 115, 45, 99, 111, 110, 116, 114, 111, 108, 45, 97, 108, 108, 111, 119, 45, 111, 114, 105, 103, 105, 110];
    let clk: [u8; 14] = [99, 111, 110, 116, 101, 110, 116, 45, 108, 101, 110, 103, 116, 104];
    let connk: [u8; 10] = [99, 111, 110, 110, 101, 99, 116, 105, 111, 110];
    let ctk: [u8; 12] = [99, 111, 110, 116, 101, 110, 116, 45, 116, 121, 112, 101];
    let originv: [u8; 21] = [104, 116, 116, 112, 115, 58, 47, 47, 104, 111, 112, 112, 115, 99, 111, 116, 99, 104, 46, 105, 111];
    let closev: [u8; 5] = [99, 108, 111, 115, 101];
    proof {
        reveal(crate::message::cl_key);
        assert(clk@ =~= crate::message::cl_key());
        assert(acaok@ =~= acao_key());
        assert(connk@ =~= conn_key());
        assert(ctk@ =~= ct_key());
        assert(originv@ =~= origin_val());
        assert(closev@ =~= close_val());
        assert(lower_bytes(clk@) =~= clk@);
        assert(lower_bytes(acaok@) =~= acaok@);
        assert(lower_bytes(connk@) =~= connk@);
        assert(lower_bytes(ctk@) =~= ctk@);
    }
    let cl_value = dec_bytes(body.len());
    let ct_value = content_type.value_bytes();
    proof {
        assert(crate::message::cl_key() != acao_key());
        assert(crate::message::cl_key() != conn_key());
        assert(crate::message::cl_key() != ct_key());
        assert(acao_key() != conn_key());
        assert(acao_key() != ct_key());
        assert(conn_key() != ct_key());
    }
    m.insert_combining(
        vstd::slice::slice_to_vec(acaok.as_slice()),
        vstd::slice::slice_to_vec(originv.as_slice()),
    );
    proof {
        crate::headers::lemma_hm_insert_notfound(
            Seq::<(Seq<u8>, Seq<u8>)>::empty(),
            acao_key(),
            origin_val(),
        );
        assert(m@ =~= seq![(acao_key(), origin_val())]);
    }
    m.insert_combining(vstd::slice::slice_to_vec(clk.as_slice()), cl_value);
    proof {
        crate::headers::lemma_hm_insert_notfound(
            seq![(acao_key(), origin_val())],
            crate::message::cl_key(),
            spec_dec_digits(body@.len() as int),
        );
        assert(m@ =~= seq![
            (acao_key(), origin_val()),
            (crate::message::cl_key(), spec_dec_digits(body@.len() as int)),
        ]);
    }
    m.insert_combining(
        vstd::slice::slice_to_vec(connk.as_slice()),
        vstd::slice::slice_to_vec(closev.as_slice()),
    );
    proof {
        crate::headers::lemma_hm_insert_notfound(
            seq![
                (acao_key(), origin_val()),
                (crate::message::cl_key(), spec_dec_digits(body@.len() as int)),
            ],
            conn_key(),
            close_val(),
        );
        assert(m@ =~= seq![
            (acao_key(), origin_val()),
            (crate::message::cl_key(), spec_dec_digits(body@.len() as int)),
            (conn_key(), close_val()),
        ]);
    }
    m.insert_combining(vstd::slice::slice_to_vec(ctk.as_slice()), ct_value);
    proof {
        crate::headers::lemma_hm_insert_notfound(
            seq![
                (acao_key(), origin_val()),
                (crate::message::cl_key(), spec_dec_digits(body@.len() as int)),
                (conn_key(), close_val()),
            ],
            ct_key(),
            content_type_value(content_type),
        );
        assert(m@ =~= common_entries_with_content_type(body@.len() as int, content_type));
    }
    m
}

/// An outgoing response: status, reason phrase, headers, body.
pub struct Response {
    status_message: StatusMessage,
    status_code: StatusCode,
    headers: HeaderMap,
    body: Vec<u8>,
}

impl Response {
    pub closed spec fn status_view(&self) -> StatusCode {
        self.status_code
    }

    pub closed spec fn message_view(&self) -> StatusMessage {
        self.status_message
    }

    pub closed spec fn headers_view(&self) -> Seq<(Seq<u8>, Seq<u8>)> {
        self.headers@
    }

    pub closed spec fn body_view(&self) -> Seq<u8> {
        self.body@
    }

    pub fn new(
        status_message: StatusMessage,
        status_code: StatusCode,
        headers: HeaderMap,
        body: Vec<u8>,
    ) -> (r: Response)
        ensures
            r.status_view() == status_code,
            r.message_view() == status_message,
            r.headers_view() == headers@,
            r.body_view() == body@,
    {
        Response { status_message, status_code, headers, body }
    }

    pub fn headers(&self) -> (r: &HeaderMap)
        ensures
            r@ == self.headers_view(),
    {
        &self.headers
    }

    pub fn body(&self) -> (r: &[u8])
        ensures
            r@ == self.body_view(),
    {
        self.body.as_slice()
    }

    pub fn status_code(&self) -> (r: &StatusCode)
        ensures
            *r == self.status_view(),
    {
        &self.status_code
    }

    /// The wire bytes of this response: status line, header block, body.
    pub fn to_bytes(&self) -> (r: Vec<u8>)
        ensures
            r@ == status_line_bytes(self.status_view()) + render_headers(self.headers_view())
                + self.body_view(),
    {
        let mut out: Vec<u8> = Vec::new();
        write_status_line(&mut out, self.status_code);
        write_header_block(&mut out, &self.headers);
        append_bytes(&mut out, self.body.as_slice());
        proof {
            assert(out@ =~= status_line_bytes(self.status_view()) + render_headers(
                self.headers_view(),
            ) + self.body_view());
        }
        out
    }
}

/// A value that knows how to present itself as a wire response.
pub trait IntoResponse {
    fn into_response(self) -> Response;
}

impl IntoResponse for Response {
    /// A response presents as itself.
    fn into_response(self) -> (r: Response)
        ensures
            r == self,
    {
        self
    }
}

/// An HTML page, served as `text/html` with status 200.
pub struct Html {
    content: Vec<u8>,
}

impl Html {
    pub closed spec fn content_view(&self) -> Seq<u8> {
        self.content@
    }

    pub fn new(html: Vec<u8>) -> (r: Html)
        ensures
            r.content_view() == html@,
    {
        Html { content: html }
    }
}

impl IntoResponse for Html {
    fn into_response(self) -> (r: Response)
        ensures
            r.status_view() == StatusCode::Okay,
            r.headers_view() == common_entries_with_content_type(
                self.content_view().len() as int,
                ContentType::TextHtml,
            ),
            r.body_view() == self.content_view(),
    {
        let headers = get_common_headers_with_content_type_header(
            self.content.as_slice(),
            ContentType::TextHtml,
        );
        Response {
            status_message: StatusMessage::Okay,
            status_code: StatusCode::Okay,
            headers,
            body: self.content,
        }
    }
}

} // verus!
