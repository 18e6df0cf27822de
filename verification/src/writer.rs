//! The step-typed response writer. The stages enforce at the type level
//! that a status line comes first, then the header block, then either one
//! fixed body or a stream of chunks with a terminator (and, if declared,
//! trailers). The writer, not the caller, decides the framing header: a
//! fixed body gets `content-length`, a chunked body `transfer-encoding:
//! chunked`, and never both.
use vstd::prelude::*;

use crate::bytes::{append_bytes, hex_bytes_upper, lower_bytes, spec_dec_digits,
    spec_hex_digits_upper};
use crate::headers::{hm_count, hm_insert, hm_lookup, hm_wf, lemma_hm_insert_lookup,
    lemma_hm_lookup_none_count_zero, lemma_hm_count_push, render_headers, write_header_block,
    HeaderMap, COMMA};
use crate::message::{cl_key, te_key, chunked_val, trailer_key};
use crate::response::{acao_key, close_val, conn_key, content_type_value, ct_key, origin_val,
    status_line_bytes, write_status_line, ContentType, StatusCode};

verus! {

/// A key the writer computes itself and drops from user-supplied maps.
pub open spec fn is_reserved_key(k: Seq<u8>) -> bool {
    k == ct_key() || k == cl_key() || k == conn_key() || k == te_key()
}

/// The header entries every written response starts from: origin,
/// connection close, and the media type.
pub open spec fn base_entries(ct: ContentType) -> Seq<(Seq<u8>, Seq<u8>)> {
    seq![
        (acao_key(), origin_val()),
        (conn_key(), close_val()),
        (ct_key(), content_type_value(ct)),
    ]
}

/// `m` without its reserved-key entries.
pub open spec fn spec_filter_reserved(m: Seq<(Seq<u8>, Seq<u8>)>) -> Seq<(Seq<u8>, Seq<u8>)>
    decreases m.len(),
{
    if m.len() == 0 {
        Seq::empty()
    } else if is_reserved_key(m[0].0) {
        spec_filter_reserved(m.skip(1))
    } else {
        seq![m[0]] + spec_filter_reserved(m.skip(1))
    }
}

proof fn lemma_filter_reserved_push(m: Seq<(Seq<u8>, Seq<u8>)>, e: (Seq<u8>, Seq<u8>))
    ensures
        spec_filter_reserved(m.push(e)) == if is_reserved_key(e.0) {
            spec_filter_reserved(m)
        } else {
            spec_filter_reserved(m).push(e)
        },
    decreases m.len(),
{
    if m.len() == 0 {
        assert(m.push(e)[0] == e);
        assert(m.push(e).skip(1) =~= Seq::<(Seq<u8>, Seq<u8>)>::empty());
        assert(spec_filter_reserved(Seq::<(Seq<u8>, Seq<u8>)>::empty()) == Seq::<(
            Seq<u8>,
            Seq<u8>,
        )>::empty());
        if is_reserved_key(e.0) {
            assert(spec_filter_reserved(m.push(e)) == spec_filter_reserved(
                Seq::<(Seq<u8>, Seq<u8>)>::empty(),
            ));
        } else {
            assert(spec_filter_reserved(m.push(e)) == seq![e] + spec_filter_reserved(
                Seq::<(Seq<u8>, Seq<u8>)>::empty(),
            ));
            assert(seq![e] + Seq::<(Seq<u8>, Seq<u8>)>::empty() =~= Seq::<(
                Seq<u8>,
                Seq<u8>,
            )>::empty().push(e));
        }
    } else {
        lemma_filter_reserved_push(m.skip(1), e);
        assert(m.push(e)[0] == m[0]);
        assert(m.push(e).skip(1) =~= m.skip(1).push(e));
        if is_reserved_key(m[0].0) {
            assert(spec_filter_reserved(m.push(e)) == spec_filter_reserved(m.skip(1).push(e)));
            assert(spec_filter_reserved(m) == spec_filter_reserved(m.skip(1)));
        } else {
            assert(spec_filter_reserved(m.push(e)) == seq![m[0]] + spec_filter_reserved(
                m.skip(1).push(e),
            ));
            assert(spec_filter_reserved(m) == seq![m[0]] + spec_filter_reserved(m.skip(1)));
            if !is_reserved_key(e.0) {
                assert(seq![m[0]] + spec_filter_reserved(m.skip(1)).push(e) =~= (seq![m[0]]
                    + spec_filter_reserved(m.skip(1))).push(e));
            }
        }
    }
}

/// Inserting every entry of `entries` into `base`, in order.
pub open spec fn hm_fold(
    base: Seq<(Seq<u8>, Seq<u8>)>,
    entries: Seq<(Seq<u8>, Seq<u8>)>,
) -> Seq<(Seq<u8>, Seq<u8>)>
    decreases entries.len(),
{
    if entries.len() == 0 {
        base
    } else {
        hm_fold(hm_insert(base, entries[0].0, entries[0].1), entries.skip(1))
    }
}

proof fn lemma_hm_fold_push(
    base: Seq<(Seq<u8>, Seq<u8>)>,
    entries: Seq<(Seq<u8>, Seq<u8>)>,
    e: (Seq<u8>, Seq<u8>),
)
    ensures
        hm_fold(base, entries.push(e)) == hm_insert(hm_fold(base, entries), e.0, e.1),
    decreases entries.len(),
{
    if entries.len() == 0 {
        assert(entries.push(e)[0] == e);
        assert(entries.push(e).skip(1) =~= Seq::<(Seq<u8>, Seq<u8>)>::empty());
        assert(hm_fold(base, entries.push(e)) == hm_fold(
            hm_insert(base, e.0, e.1),
            Seq::<(Seq<u8>, Seq<u8>)>::empty(),
        ));
        assert(hm_fold(hm_insert(base, e.0, e.1), Seq::<(Seq<u8>, Seq<u8>)>::empty()) == hm_insert(
            base,
            e.0,
            e.1,
        ));
    } else {
        lemma_hm_fold_push(hm_insert(base, entries[0].0, entries[0].1), entries.skip(1), e);
        assert(entries.push(e)[0] == entries[0]);
        assert(entries.push(e).skip(1) =~= entries.skip(1).push(e));
        assert(hm_fold(base, entries.push(e)) == hm_fold(
            hm_insert(base, entries[0].0, entries[0].1),
            entries.skip(1).push(e),
        ));
        assert(hm_fold(base, entries) == hm_fold(
            hm_insert(base, entries[0].0, entries[0].1),
            entries.skip(1),
        ));
    }
}

/// The headers a fixed body of `n` bytes is sent under.
pub open spec fn fixed_body_entries(hs: Seq<(Seq<u8>, Seq<u8>)>, n: int) -> Seq<(Seq<u8>, Seq<u8>)> {
    hs.push((cl_key(), spec_dec_digits(n)))
}

/// The headers a chunked body is sent under.
pub open spec fn chunked_entries(hs: Seq<(Seq<u8>, Seq<u8>)>) -> Seq<(Seq<u8>, Seq<u8>)> {
    hs.push((te_key(), chunked_val()))
}

/// One chunk on the wire: its length in uppercase hex, CRLF, the data,
/// CRLF.
pub open spec fn chunk_frame(c: Seq<u8>) -> Seq<u8> {
    spec_hex_digits_upper(c.len() as int) + seq![13u8, 10u8] + c + seq![13u8, 10u8]
}

/// A whole fixed-body response on the wire.
pub open spec fn fixed_message(status: StatusCode, hs: Seq<(Seq<u8>, Seq<u8>)>, body: Seq<u8>) -> Seq<
    u8,
> {
    status_line_bytes(status) + render_headers(fixed_body_entries(hs, body.len() as int)) + body
}

/// The head of a chunked response on the wire.
pub open spec fn chunked_head(status: StatusCode, hs: Seq<(Seq<u8>, Seq<u8>)>) -> Seq<u8> {
    status_line_bytes(status) + render_headers(chunked_entries(hs))
}

/// The writer sets exactly one framing header, never both: a fixed body
/// carries one `content-length` and no `transfer-encoding`, a chunked body
/// one `transfer-encoding` and no `content-length`.
pub proof fn lemma_exactly_one_framing_header(hs: Seq<(Seq<u8>, Seq<u8>)>, n: int)
    requires
        hm_lookup(hs, cl_key()) is None,
        hm_lookup(hs, te_key()) is None,
    ensures
        hm_count(fixed_body_entries(hs, n), cl_key()) == 1,
        hm_count(fixed_body_entries(hs, n), te_key()) == 0,
        hm_count(chunked_entries(hs), te_key()) == 1,
        hm_count(chunked_entries(hs), cl_key()) == 0,
{
    reveal(cl_key);
    reveal(te_key);
    assert(cl_key()[0] != te_key()[0]);
    lemma_hm_lookup_none_count_zero(hs, cl_key());
    lemma_hm_lookup_none_count_zero(hs, te_key());
    lemma_hm_count_push(hs, (cl_key(), spec_dec_digits(n)), cl_key());
    lemma_hm_count_push(hs, (cl_key(), spec_dec_digits(n)), te_key());
    lemma_hm_count_push(hs, (te_key(), chunked_val()), te_key());
    lemma_hm_count_push(hs, (te_key(), chunked_val()), cl_key());
}

/// Entry stage: nothing written yet.
pub struct ResponseWriter {
}

/// After the status line: the header block is being assembled.
pub struct Headers {
    status: StatusCode,
}

/// After the headers: either one fixed body or a stream of chunks.
pub struct Body {
    status: StatusCode,
    headers: HeaderMap,
    out: Vec<u8>,
    transfer_encoding_header_written: bool,
}

/// A chunked body whose trailer names were declared up front.
pub struct ChunkedBodyWithTrailerHeaders {
    out: Vec<u8>,
}

/// The finished response, as wire bytes.
pub struct ManualResponse {
    bytes: Vec<u8>,
}

impl ManualResponse {
    pub closed spec fn bytes_view(&self) -> Seq<u8> {
        self.bytes@
    }

    /// The bytes to put on the wire.
    pub fn into_bytes(self) -> (r: Vec<u8>)
        ensures
            r@ == self.bytes_view(),
    {
        self.bytes
    }
}

impl ResponseWriter {
    pub fn new() -> ResponseWriter {
        ResponseWriter {}
    }

    /// Writes the status line and moves to the header stage.
    pub fn write_status_line(self, status_code: StatusCode) -> (r: Headers)
        ensures
            r.status_view() == status_code,
    {
        Headers { status: status_code }
    }
}

impl Headers {
    pub closed spec fn status_view(&self) -> StatusCode {
        self.status
    }

    /// The fixed header set alone: origin, connection close, media type.
    pub fn write_default_headers(self, content_type: ContentType) -> (r: Body)
        ensures
            r.wf(),
            r.status_view() == self.status_view(),
            r.headers_view() == base_entries(content_type),
            !r.started(),
            r.out_view() == Seq::<u8>::empty(),
    {
        let headers = base_header_map(content_type);
        Body { status: self.status, headers, out: Vec::new(), transfer_encoding_header_written: false }
    }

    /// The fixed header set plus the user's headers; reserved keys in the
    /// user map are dropped in favour of writer-computed values.
    pub fn write_headers(self, custom_headers: &HeaderMap, content_type: ContentType) -> (r: Body)
        requires
            custom_headers.wf(),
        ensures
            r.wf(),
            r.status_view() == self.status_view(),
            r.headers_view() == hm_fold(
                base_entries(content_type),
                spec_filter_reserved(custom_headers@),
            ),
            !r.started(),
            r.out_view() == Seq::<u8>::empty(),
    {
        let headers = merged_header_map(custom_headers, content_type);
        Body { status: self.status, headers, out: Vec::new(), transfer_encoding_header_written: false }
    }

    /// Declares trailer names, switches to chunked framing, and writes the
    /// whole head at once; chunks and trailers follow.
    pub fn write_headers_with_trailer_headers(
        self,
        custom_headers: &HeaderMap,
        trailer_header_keys: &Vec<Vec<u8>>,
        content_type: ContentType,
    ) -> (r: ChunkedBodyWithTrailerHeaders)
        requires
            custom_headers.wf(),
        ensures
            r.out_view() == status_line_bytes(self.status_view()) + render_headers(
                chunked_entries(
                    hm_insert(
                        hm_fold(
                            base_entries(content_type),
                            spec_filter_reserved(custom_headers@),
                        ),
                        trailer_key(),
                        joined_keys(trailer_header_keys@.map_values(|v: Vec<u8>| v@)),
                    ),
                ),
            ),
    {
        let mut headers = merged_header_map(custom_headers, content_type);
        let tk: [u8; 7] = [116, 114, 97, 105, 108, 101, 114];
        proof {
            reveal(trailer_key);
            assert(tk@ =~= trailer_key());
            assert(lower_bytes(tk@) =~= tk@);
        }
        let joined = join_keys(trailer_header_keys);
        let ghost h0 = headers@;
        let ghost jv = joined@;
        headers.insert_combining(vstd::slice::slice_to_vec(tk.as_slice()), joined);
        proof {
            reveal(trailer_key);
            reveal(te_key);
            assert(trailer_key() != te_key());
            lemma_hm_insert_lookup(h0, trailer_key(), jv, te_key());
        }
        let mut out: Vec<u8> = Vec::new();
        write_status_line(&mut out, self.status);
        let te_arr: [u8; 17] = [116, 114, 97, 110, 115, 102, 101, 114, 45, 101, 110, 99, 111, 100, 105, 110, 103];
        let chunked_arr: [u8; 7] = [99, 104, 117, 110, 107, 101, 100];
        proof {
            reveal(te_key);
            reveal(chunked_val);
            assert(te_arr@ =~= te_key());
            assert(chunked_arr@ =~= chunked_val());
            assert(lower_bytes(te_arr@) =~= te_arr@);
        }
        let mut hs2 = headers;
        push_entry(&mut hs2, te_arr.as_slice(), chunked_arr.as_slice());
        write_header_block(&mut out, &hs2);
        proof {
            assert(out@ =~= status_line_bytes(self.status_view()) + render_headers(
                chunked_entries(
                    hm_insert(
                        hm_fold(
                            base_entries(content_type),
                            spec_filter_reserved(custom_headers@),
                        ),
                        trailer_key(),
                        joined_keys(trailer_header_keys@.map_values(|v: Vec<u8>| v@)),
                    ),
                ),
            ));
        }
        ChunkedBodyWithTrailerHeaders { out }
    }
}

/// Trailer names joined by commas, in declaration order.
pub open spec fn joined_keys(keys: Seq<Seq<u8>>) -> Seq<u8>
    decreases keys.len(),
{
    if keys.len() == 0 {
        Seq::empty()
    } else if keys.len() == 1 {
        keys[0]
    } else {
        keys[0] + seq![COMMA] + joined_keys(keys.skip(1))
    }
}

fn join_keys(keys: &Vec<Vec<u8>>) -> (r: Vec<u8>)
    ensures
        r@ == joined_keys(keys@.map_values(|v: Vec<u8>| v@)),
{
    let ghost ks = keys@.map_values(|v: Vec<u8>| v@);
    let n = keys.len();
    let mut out: Vec<u8> = Vec::new();
    if n == 0 {
        proof {
            assert(out@ =~= joined_keys(ks));
        }
        return out;
    }
    let mut i: usize = 0;
    while i < n
        invariant
            n == keys@.len(),
            n >= 1,
            ks == keys@.map_values(|v: Vec<u8>| v@),
            i <= n,
            out@ == joined_partial(ks, i as int),
        decreases n - i,
    {
        if i > 0 {
            out.push(COMMA);
        }
        append_bytes(&mut out, keys[i].as_slice());
        proof {
            if i == 0 {
                assert(out@ =~= joined_partial(ks, 1));
            } else {
                assert(out@ =~= joined_partial(ks, i + 1));
            }
        }
        i = i + 1;
    }
    proof {
        lemma_joined_partial_full(ks);
    }
    out
}

/// The first `i` trailer names joined by commas.
pub open spec fn joined_partial(keys: Seq<Seq<u8>>, i: int) -> Seq<u8>
    decreases i,
{
    if i <= 0 {
        Seq::empty()
    } else if i == 1 {
        keys[0]
    } else {
        joined_partial(keys, i - 1) + seq![COMMA] + keys[i - 1]
    }
}

proof fn lemma_joined_partial_full(keys: Seq<Seq<u8>>)
    ensures
        keys.len() > 0 ==> joined_partial(keys, keys.len() as int) == joined_keys(keys),
    decreases keys.len(),
{
    if keys.len() > 1 {
        lemma_joined_partial_full(keys.skip(1));
        lemma_joined_shift(keys, keys.len() as int);
        assert(joined_keys(keys) == keys[0] + seq![COMMA] + joined_keys(keys.skip(1)));
    }
}

proof fn lemma_joined_shift(keys: Seq<Seq<u8>>, i: int)
    requires
        2 <= i <= keys.len(),
    ensures
        joined_partial(keys, i) == keys[0] + seq![COMMA] + joined_partial(keys.skip(1), i - 1),
    decreases i,
{
    if i == 2 {
        assert(keys.skip(1)[0] == keys[1]);
        assert(joined_partial(keys, 1) == keys[0]);
        assert(joined_partial(keys, 2) == joined_partial(keys, 1) + seq![COMMA] + keys[1]);
        assert(joined_partial(keys.skip(1), 1) == keys.skip(1)[0]);
    } else {
        lemma_joined_shift(keys, i - 1);
        assert(keys.skip(1)[i - 2] == keys[i - 1]);
        assert((keys[0] + seq![COMMA] + joined_partial(keys.skip(1), i - 2)) + seq![COMMA] + keys[i
            - 1] =~= keys[0] + seq![COMMA] + (joined_partial(keys.skip(1), i - 2) + seq![COMMA]
            + keys[i - 1]));
    }
}

/// Builds the base header map for `ct`.
fn base_header_map(ct: ContentType) -> (r: HeaderMap)
    ensures
        r.wf(),
        r@ == base_entries(ct),
        hm_lookup(r@, cl_key()) is None,
        hm_lookup(r@, te_key()) is None,
{
    let mut m = HeaderMap::new();
    let acaok: [u8; 27] = [97, 99, 99, 101, 115, 115, 45, 99, 111, 110, 116, 114, 111, 108, 45, 97, 108, 108, 111, 119, 45, 111, 114, 105, 103, 105, 110];
    let connk: [u8; 10] = [99, 111, 110, 110, 101, 99, 116, 105, 111, 110];
    let ctk: [u8; 12] = [99, 111, 110, 116, 101, 110, 116, 45, 116, 121, 112, 101];
    let originv: [u8; 21] = [104, 116, 116, 112, 115, 58, 47, 47, 104, 111, 112, 112, 115, 99, 111, 116, 99, 104, 46, 105, 111];
    let closev: [u8; 5] = [99, 108, 111, 115, 101];
    proof {
        reveal(cl_key);
        reveal(te_key);
        assert(acaok@ =~= acao_key());
        assert(connk@ =~= conn_key());
        assert(ctk@ =~= ct_key());
        assert(originv@ =~= origin_val());
        assert(closev@ =~= close_val());
        assert(lower_bytes(acaok@) =~= acaok@);
        assert(lower_bytes(connk@) =~= connk@);
        assert(lower_bytes(ctk@) =~= ctk@);
        assert(acao_key() != conn_key());
        assert(acao_key() != ct_key());
        assert(conn_key() != ct_key());
        assert(acao_key() != cl_key());
        assert(conn_key() != cl_key());
        assert(ct_key() != cl_key());
        assert(acao_key() != te_key());
        assert(conn_key() != te_key());
        assert(ct_key() != te_key());
    }
    m.insert_combining(
        vstd::slice::slice_to_vec(acaok.as_slice()),
        vstd::slice::slice_to_vec(originv.as_slice()),
    );
    proof {
        crate::headers::lemma_hm_insert_notfound(
            Seq::<(Seq<u8>, Seq<u8>)>::empty(),
            acao_key(),
            origin_val(),
        );
        assert(m@ =~= seq![(acao_key(), origin_val())]);
    }
    m.insert_combining(
        vstd::slice::slice_to_vec(connk.as_slice()),
        vstd::slice::slice_to_vec(closev.as_slice()),
    );
    proof {
        crate::headers::lemma_hm_insert_notfound(
            seq![(acao_key(), origin_val())],
            conn_key(),
            close_val(),
        );
        assert(m@ =~= seq![(acao_key(), origin_val()), (conn_key(), close_val())]);
    }
    let ctv = ct.value_bytes();
    m.insert_combining(vstd::slice::slice_to_vec(ctk.as_slice()), ctv);
    proof {
        crate::headers::lemma_hm_insert_notfound(
            seq![(acao_key(), origin_val()), (conn_key(), close_val())],
            ct_key(),
            content_type_value(ct),
        );
        assert(m@ =~= base_entries(ct));
        crate::headers::lemma_hm_lookup_none(m@, cl_key());
        crate::headers::lemma_hm_lookup_none(m@, te_key());
    }
    m
}

/// Appends one entry whose key is known to be absent.
fn push_entry(m: &mut HeaderMap, key: &[u8], value: &[u8])
    requires
        old(m).wf(),
        lower_bytes(key@) == key@,
        hm_lookup(old(m)@, key@) is None,
    ensures
        final(m).wf(),
        final(m)@ == old(m)@.push((key@, value@)),
{
    proof {
        lemma_none_no_key(old(m)@, key@);
        crate::headers::lemma_hm_insert_notfound(old(m)@, key@, value@);
    }
    m.insert_combining(
        vstd::slice::slice_to_vec(key),
        vstd::slice::slice_to_vec(value),
    );
}

proof fn lemma_none_no_key(m: Seq<(Seq<u8>, Seq<u8>)>, k: Seq<u8>)
    requires
        hm_lookup(m, k) is None,
    ensures
        forall|j: int| 0 <= j < m.len() ==> m[j].0 != k,
    decreases m.len(),
{
    if m.len() > 0 {
        lemma_none_no_key(m.skip(1), k);
        assert forall|j: int| 0 <= j < m.len() implies m[j].0 != k by {
            if j > 0 {
                assert(m.skip(1)[j - 1] == m[j]);
            }
        }
    }
}

/// Merges the user's non-reserved headers into the base set.
fn merged_header_map(custom: &HeaderMap, ct: ContentType) -> (r: HeaderMap)
    requires
        custom.wf(),
    ensures
        r.wf(),
        r@ == hm_fold(base_entries(ct), spec_filter_reserved(custom@)),
        hm_lookup(r@, cl_key()) is None,
        hm_lookup(r@, te_key()) is None,
{
    let mut m = base_header_map(ct);
    let n = custom.len();
    let mut i: usize = 0;
    proof {
        assert(spec_filter_reserved(custom@.take(0)) =~= Seq::<(Seq<u8>, Seq<u8>)>::empty());
    }
    while i < n
        invariant
            n == custom@.len(),
            i <= n,
            custom.wf(),
            m.wf(),
            m@ == hm_fold(base_entries(ct), spec_filter_reserved(custom@.take(i as int))),
            hm_lookup(m@, cl_key()) is None,
            hm_lookup(m@, te_key()) is None,
        decreases n - i,
    {
        let e = custom.entry_at(i);
        let ctk: [u8; 12] = [99, 111, 110, 116, 101, 110, 116, 45, 116, 121, 112, 101];
        let clk: [u8; 14] = [99, 111, 110, 116, 101, 110, 116, 45, 108, 101, 110, 103, 116, 104];
        let connk: [u8; 10] = [99, 111, 110, 110, 101, 99, 116, 105, 111, 110];
        let tek: [u8; 17] = [116, 114, 97, 110, 115, 102, 101, 114, 45, 101, 110, 99, 111, 100, 105, 110, 103];
        proof {
            reveal(cl_key);
            reveal(te_key);
            assert(ctk@ =~= ct_key());
            assert(clk@ =~= cl_key());
            assert(connk@ =~= conn_key());
            assert(tek@ =~= te_key());
        }
        let reserved = crate::bytes::bytes_eq(e.0.as_slice(), ctk.as_slice())
            || crate::bytes::bytes_eq(e.0.as_slice(), clk.as_slice()) || crate::bytes::bytes_eq(
            e.0.as_slice(),
            connk.as_slice(),
        ) || crate::bytes::bytes_eq(e.0.as_slice(), tek.as_slice());
        proof {
            lemma_filter_reserved_push(custom@.take(i as int), custom@[i as int]);
            assert(custom@.take(i + 1) =~= custom@.take(i as int).push(custom@[i as int]));
        }
        if !reserved {
            let key = vstd::slice::slice_to_vec(e.0.as_slice());
            let value = vstd::slice::slice_to_vec(e.1.as_slice());
            proof {
                assert(custom.wf());
                assert(lower_bytes(custom@[i as int].0) == custom@[i as int].0);
                lemma_hm_insert_lookup(m@, key@, value@, cl_key());
                lemma_hm_insert_lookup(m@, key@, value@, te_key());
                lemma_hm_fold_push(
                    base_entries(ct),
                    spec_filter_reserved(custom@.take(i as int)),
                    custom@[i as int],
                );
            }
            m.insert_combining(key, value);
        }
        i = i + 1;
    }
    proof {
        assert(custom@.take(n as int) =~= custom@);
    }
    m
}

impl Body {
    pub closed spec fn status_view(&self) -> StatusCode {
        self.status
    }

    pub closed spec fn headers_view(&self) -> Seq<(Seq<u8>, Seq<u8>)> {
        self.headers@
    }

    pub closed spec fn out_view(&self) -> Seq<u8> {
        self.out@
    }

    /// Whether the chunked head has been written.
    pub closed spec fn started(&self) -> bool {
        self.transfer_encoding_header_written
    }

    pub open spec fn wf(&self) -> bool {
        &&& hm_wf(self.headers_view())
        &&& hm_lookup(self.headers_view(), cl_key()) is None
        &&& hm_lookup(self.headers_view(), te_key()) is None
    }

    /// Sends one fixed plain-text body; the writer adds the exact
    /// `content-length`.
    pub fn write_body_plain_text(self, body: &[u8]) -> (r: ManualResponse)
        requires
            self.wf(),
            !self.started(),
        ensures
            r.bytes_view() == fixed_message(self.status_view(), self.headers_view(), body@),
            hm_count(fixed_body_entries(self.headers_view(), body@.len() as int), cl_key()) == 1,
            hm_count(fixed_body_entries(self.headers_view(), body@.len() as int), te_key()) == 0,
    {
        self.write_fixed(body)
    }

    /// Sends one fixed HTML body; the writer adds the exact
    /// `content-length`.
    pub fn write_body_html(self, body: &[u8]) -> (r: ManualResponse)
        requires
            self.wf(),
            !self.started(),
        ensures
            r.bytes_view() == fixed_message(self.status_view(), self.headers_view(), body@),
            hm_count(fixed_body_entries(self.headers_view(), body@.len() as int), cl_key()) == 1,
            hm_count(fixed_body_entries(self.headers_view(), body@.len() as int), te_key()) == 0,
    {
        self.write_fixed(body)
    }

    /// Sends an empty body with `content-length: 0`.
    pub fn write_empty_body(self) -> (r: ManualResponse)
        requires
            self.wf(),
            !self.started(),
        ensures
            r.bytes_view() == fixed_message(
                self.status_view(),
                self.headers_view(),
                Seq::<u8>::empty(),
            ),
    {
        let empty: Vec<u8> = Vec::new();
        let ghost sv = self.status_view();
        let ghost hv = self.headers_view();
        let r = self.write_fixed(empty.as_slice());
        proof {
            assert(r.bytes_view() =~= fixed_message(sv, hv, Seq::<u8>::empty()));
        }
        r
    }

    fn write_fixed(self, body: &[u8]) -> (r: ManualResponse)
        requires
            self.wf(),
            !self.started(),
        ensures
            r.bytes_view() == fixed_message(self.status_view(), self.headers_view(), body@),
            hm_count(fixed_body_entries(self.headers_view(), body@.len() as int), cl_key()) == 1,
            hm_count(fixed_body_entries(self.headers_view(), body@.len() as int), te_key()) == 0,
    {
        let ghost sv = self.status_view();
        let ghost hv = self.headers_view();
        let mut out: Vec<u8> = Vec::new();
        write_status_line(&mut out, self.status);
        let clk: [u8; 14] = [99, 111, 110, 116, 101, 110, 116, 45, 108, 101, 110, 103, 116, 104];
        proof {
            reveal(cl_key);
            assert(clk@ =~= cl_key());
            assert(lower_bytes(clk@) =~= clk@);
        }
        let cl_value = crate::bytes::dec_bytes(body.len());
        let mut hs2 = self.headers;
        push_entry(&mut hs2, clk.as_slice(), cl_value.as_slice());
        write_header_block(&mut out, &hs2);
        append_bytes(&mut out, body);
        proof {
            lemma_exactly_one_framing_header(hv, body@.len() as int);
            assert(hs2@ == fixed_body_entries(hv, body@.len() as int));
            assert(out@ =~= fixed_message(sv, hv, body@));
        }
        ManualResponse { bytes: out }
    }

    /// Sends one chunk; the first chunk also sends the head with
    /// `transfer-encoding: chunked`.
    pub fn write_chunk(&mut self, chunk: &[u8])
        requires
            old(self).wf(),
        ensures
            final(self).wf(),
            final(self).status_view() == old(self).status_view(),
            final(self).headers_view() == old(self).headers_view(),
            final(self).started(),
            final(self).out_view() == if old(self).started() {
                old(self).out_view() + chunk_frame(chunk@)
            } else {
                chunked_head(old(self).status_view(), old(self).headers_view()) + chunk_frame(
                    chunk@,
                )
            },
    {
        if !self.transfer_encoding_header_written {
            let mut head: Vec<u8> = Vec::new();
            write_status_line(&mut head, self.status);
            let tek: [u8; 17] = [116, 114, 97, 110, 115, 102, 101, 114, 45, 101, 110, 99, 111, 100, 105, 110, 103];
            let chv: [u8; 7] = [99, 104, 117, 110, 107, 101, 100];
            proof {
                reveal(te_key);
                reveal(chunked_val);
                assert(tek@ =~= te_key());
                assert(chv@ =~= chunked_val());
                assert(lower_bytes(tek@) =~= tek@);
            }
            let mut hs2 = duplicate_map(&self.headers);
            push_entry(&mut hs2, tek.as_slice(), chv.as_slice());
            write_header_block(&mut head, &hs2);
            self.out = head;
            self.transfer_encoding_header_written = true;
            proof {
                assert(self.out_view() =~= chunked_head(
                    old(self).status_view(),
                    old(self).headers_view(),
                ));
            }
        }
        let frame = frame_chunk(chunk);
        append_bytes(&mut self.out, frame.as_slice());
    }

    /// Ends the chunked body with the zero-size terminator.
    pub fn write_chunked_body_done(self) -> (r: ManualResponse)
        requires
            self.wf(),
        ensures
            r.bytes_view() == (if self.started() {
                self.out_view()
            } else {
                chunked_head(self.status_view(), self.headers_view())
            }) + seq![48u8, 13u8, 10u8, 13u8, 10u8],
            hm_count(chunked_entries(self.headers_view()), te_key()) == 1,
            hm_count(chunked_entries(self.headers_view()), cl_key()) == 0,
    {
        let ghost sv = self.status_view();
        let ghost hv = self.headers_view();
        let mut out: Vec<u8>;
        if self.transfer_encoding_header_written {
            out = self.out;
        } else {
            out = Vec::new();
            write_status_line(&mut out, self.status);
            let tek: [u8; 17] = [116, 114, 97, 110, 115, 102, 101, 114, 45, 101, 110, 99, 111, 100, 105, 110, 103];
            let chv: [u8; 7] = [99, 104, 117, 110, 107, 101, 100];
            proof {
                reveal(te_key);
                reveal(chunked_val);
                assert(tek@ =~= te_key());
                assert(chv@ =~= chunked_val());
                assert(lower_bytes(tek@) =~= tek@);
            }
            let mut hs2 = self.headers;
            push_entry(&mut hs2, tek.as_slice(), chv.as_slice());
            write_header_block(&mut out, &hs2);
            proof {
                assert(out@ =~= chunked_head(sv, hv));
            }
        }
        out.push(48);
        out.push(13);
        out.push(10);
        out.push(13);
        out.push(10);
        proof {
            lemma_exactly_one_framing_header(hv, 0);
            assert(out@ =~= (if self.started() {
                self.out_view()
            } else {
                chunked_head(sv, hv)
            }) + seq![48u8, 13u8, 10u8, 13u8, 10u8]);
        }
        ManualResponse { bytes: out }
    }
}

/// An owned copy of a header map.
fn duplicate_map(m: &HeaderMap) -> (r: HeaderMap)
    requires
        m.wf(),
    ensures
        r.wf(),
        r@ == m@,
{
    let n = m.len();
    let mut r = HeaderMap::new();
    let mut i: usize = 0;
    while i < n
        invariant
            n == m@.len(),
            i <= n,
            m.wf(),
            r.wf(),
            r@ == m@.take(i as int),
        decreases n - i,
    {
        let e = m.entry_at(i);
        proof {
            assert forall|j: int| 0 <= j < i implies m@.take(i as int)[j].0 != m@[i as int].0 by {
                assert(m@.take(i as int)[j] == m@[j]);
            }
            crate::headers::lemma_hm_insert_notfound(
                m@.take(i as int),
                m@[i as int].0,
                m@[i as int].1,
            );
            assert(lower_bytes(m@[i as int].0) == m@[i as int].0);
        }
        r.insert_combining(
            vstd::slice::slice_to_vec(e.0.as_slice()),
            vstd::slice::slice_to_vec(e.1.as_slice()),
        );
        proof {
            assert(r@ =~= m@.take(i + 1));
        }
        i = i + 1;
    }
    proof {
        assert(m@.take(n as int) =~= m@);
    }
    r
}

/// Renders one chunk frame: hex length, CRLF, data, CRLF.
fn frame_chunk(chunk: &[u8]) -> (r: Vec<u8>)
    ensures
        r@ == chunk_frame(chunk@),
{
    let mut out = hex_bytes_upper(chunk.len());
    out.push(13);
    out.push(10);
    append_bytes(&mut out, chunk);
    out.push(13);
    out.push(10);
    proof {
        assert(out@ =~= chunk_frame(chunk@));
    }
    out
}

impl ChunkedBodyWithTrailerHeaders {
    pub closed spec fn out_view(&self) -> Seq<u8> {
        self.out@
    }

    /// Sends one chunk.
    pub fn write_chunk(&mut self, chunk: &[u8])
        ensures
            final(self).out_view() == old(self).out_view() + chunk_frame(chunk@),
    {
        let frame = frame_chunk(chunk);
        append_bytes(&mut self.out, frame.as_slice());
    }

    /// Ends the chunk stream with the bare zero-size line; trailer lines
    /// follow it.
    pub fn write_chunked_body_done(&mut self)
        ensures
            final(self).out_view() == old(self).out_view() + seq![48u8, 13u8, 10u8],
    {
        self.out.push(48);
        self.out.push(13);
        self.out.push(10);
        proof {
            assert(self.out_view() =~= old(self).out_view() + seq![48u8, 13u8, 10u8]);
        }
    }

    /// Sends the trailer lines and the blank line that ends the message.
    pub fn write_trailer_headers(self, trailer_headers: &HeaderMap) -> (r: ManualResponse)
        ensures
            r.bytes_view() == self.out_view() + render_headers(trailer_headers@),
    {
        let mut out = self.out;
        write_header_block(&mut out, trailer_headers);
        ManualResponse { bytes: out }
    }
}

} // verus!
