//! The proxy pipeline: a message parser that forwards what it parses to a
//! peer as the bytes arrive. The head is re-emitted once the header block
//! is complete — the request line rewritten for the upstream host, the
//! `host` header replaced — and every body byte is then passed through
//! verbatim, so chunked framing reaches the peer unchanged.
use vstd::prelude::*;

use crate::bytes::append_bytes;
use crate::first_line::RequestLine;
use crate::headers::HeaderMap;
use crate::message::{init_config, is_terminal, past_headers, run_machine, LineKind, MConfig,
    ParseFailure, Parser, Step};
use crate::mock::MockStream;
use crate::response::{proxied_status_line, write_proxied_response_status_line};

verus! {

/// "host"
pub open spec fn host_key() -> Seq<u8> {
    seq![104u8, 111u8, 115u8, 116u8]
}

/// `m` without its `host` entries.
pub open spec fn spec_filter_host(m: Seq<(Seq<u8>, Seq<u8>)>) -> Seq<(Seq<u8>, Seq<u8>)>
    decreases m.len(),
{
    if m.len() == 0 {
        Seq::empty()
    } else if m[0].0 == host_key() {
        spec_filter_host(m.skip(1))
    } else {
        seq![m[0]] + spec_filter_host(m.skip(1))
    }
}

proof fn lemma_filter_host_push(m: Seq<(Seq<u8>, Seq<u8>)>, e: (Seq<u8>, Seq<u8>))
    ensures
        spec_filter_host(m.push(e)) == if e.0 == host_key() {
            spec_filter_host(m)
        } else {
            spec_filter_host(m).push(e)
        },
    decreases m.len(),
{
    if m.len() == 0 {
        assert(m.push(e)[0] == e);
        assert(m.push(e).skip(1) =~= Seq::<(Seq<u8>, Seq<u8>)>::empty());
        assert(spec_filter_host(Seq::<(Seq<u8>, Seq<u8>)>::empty()) == Seq::<(
            Seq<u8>,
            Seq<u8>,
        )>::empty());
        if e.0 == host_key() {
            assert(spec_filter_host(m.push(e)) == spec_filter_host(
                Seq::<(Seq<u8>, Seq<u8>)>::empty(),
            ));
        } else {
            assert(spec_filter_host(m.push(e)) == seq![e] + spec_filter_host(
                Seq::<(Seq<u8>, Seq<u8>)>::empty(),
            ));
            assert(seq![e] + Seq::<(Seq<u8>, Seq<u8>)>::empty() =~= Seq::<(
                Seq<u8>,
                Seq<u8>,
            )>::empty().push(e));
        }
    } else {
        lemma_filter_host_push(m.skip(1), e);
        assert(m.push(e)[0] == m[0]);
        assert(m.push(e).skip(1) =~= m.skip(1).push(e));
        if m[0].0 == host_key() {
            assert(spec_filter_host(m.push(e)) == spec_filter_host(m.skip(1).push(e)));
            assert(spec_filter_host(m) == spec_filter_host(m.skip(1)));
        } else {
            assert(spec_filter_host(m.push(e)) == seq![m[0]] + spec_filter_host(
                m.skip(1).push(e),
            ));
            assert(spec_filter_host(m) == seq![m[0]] + spec_filter_host(m.skip(1)));
            if e.0 != host_key() {
                assert(seq![m[0]] + spec_filter_host(m.skip(1)).push(e) =~= (seq![m[0]]
                    + spec_filter_host(m.skip(1))).push(e));
            }
        }
    }
}

/// The header lines of `m` with any `host` entry dropped, plus the blank
/// line.
pub open spec fn proxied_header_block(m: Seq<(Seq<u8>, Seq<u8>)>) -> Seq<u8> {
    crate::headers::render_entries(spec_filter_host(m)) + seq![13u8, 10u8]
}

/// The rewritten request line sent to the upstream host: the client's
/// method and target, a fixed HTTP/1.1 version, and a `Host` header
/// naming the peer.
pub open spec fn proxied_request_line(method: Seq<u8>, target: Seq<u8>, host: Seq<u8>) -> Seq<u8> {
    method + seq![32u8] + target + seq![
        32u8, 72u8, 84u8, 84u8, 80u8, 47u8, 49u8, 46u8, 49u8, 13u8, 10u8, 72u8, 111u8, 115u8, 116u8, 58u8, 32u8,
    ] + host + seq![13u8, 10u8]
}

/// Appends the rewritten request line for the upstream host.
pub fn write_proxied_request_line(out: &mut Vec<u8>, request: &RequestLine, remote_host: &[u8])
    ensures
        final(out)@ == old(out)@ + proxied_request_line(
            request.method_view(),
            request.target_view(),
            remote_host@,
        ),
{
    append_bytes(out, request.method().as_slice());
    out.push(32);
    append_bytes(out, request.request_target().as_slice());
    let mid: [u8; 17] = [32, 72, 84, 84, 80, 47, 49, 46, 49, 13, 10, 72, 111, 115, 116, 58, 32];
    append_bytes(out, mid.as_slice());
    append_bytes(out, remote_host);
    out.push(13);
    out.push(10);
    proof {
        assert(out@ =~= old(out)@ + proxied_request_line(
            request.method_view(),
            request.target_view(),
            remote_host@,
        ));
    }
}

/// Appends every header line except `host`, then the blank line.
pub fn write_proxied_headers(out: &mut Vec<u8>, headers: &HeaderMap)
    ensures
        final(out)@ == old(out)@ + proxied_header_block(headers@),
{
    let n = headers.len();
    let mut i: usize = 0;
    proof {
        assert(spec_filter_host(headers@.take(0)) =~= Seq::<(Seq<u8>, Seq<u8>)>::empty());
        assert(old(out)@ + crate::headers::render_entries(spec_filter_host(headers@.take(0)))
            =~= old(out)@);
    }
    while i < n
        invariant
            n == headers@.len(),
            i <= n,
            out@ == old(out)@ + crate::headers::render_entries(
                spec_filter_host(headers@.take(i as int)),
            ),
        decreases n - i,
    {
        let e = headers.entry_at(i);
        let hk: [u8; 4] = [104, 111, 115, 116];
        proof {
            assert(hk@ =~= host_key());
            lemma_filter_host_push(headers@.take(i as int), headers@[i as int]);
            assert(headers@.take(i + 1) =~= headers@.take(i as int).push(headers@[i as int]));
        }
        if !crate::bytes::bytes_eq(e.0.as_slice(), hk.as_slice()) {
            append_bytes(out, e.0.as_slice());
            out.push(58);
            out.push(32);
            append_bytes(out, e.1.as_slice());
            out.push(13);
            out.push(10);
            proof {
                crate::headers::lemma_render_entries_push(
                    spec_filter_host(headers@.take(i as int)),
                    headers@[i as int],
                );
                assert(out@ =~= old(out)@ + crate::headers::render_entries(
                    spec_filter_host(headers@.take(i + 1)),
                ));
            }
        }
        i = i + 1;
    }
    out.push(13);
    out.push(10);
    proof {
        assert(headers@.take(n as int) =~= headers@);
        assert(out@ =~= old(out)@ + proxied_header_block(headers@));
    }
}

/// The whole re-emitted head for the configuration `c`: a rewritten
/// request line or status line, then the headers without `host`.
pub open spec fn spec_proxy_head(kind: LineKind, host: Seq<u8>, c: MConfig) -> Seq<u8> {
    let fl = match c.first {
        Some(fl) => fl,
        None => (Seq::<u8>::empty(), Seq::<u8>::empty(), Seq::<u8>::empty()),
    };
    match kind {
        LineKind::Request => proxied_request_line(fl.0, fl.1, host) + proxied_header_block(
            c.headers,
        ),
        LineKind::Response => proxied_status_line(fl.1, fl.2) + proxied_header_block(c.headers),
    }
}

/// Appends the re-emitted head for the parser's current configuration.
fn write_proxy_head(out: &mut Vec<u8>, parser: &Parser, host: &[u8])
    ensures
        final(out)@ == old(out)@ + spec_proxy_head(parser.kind_view(), host@, parser.config()),
{
    match parser.kind() {
        LineKind::Request => {
            match parser.request_line_ref() {
                Some(rl) => {
                    write_proxied_request_line(out, rl, host);
                },
                None => {
                    let d = RequestLine::default();
                    write_proxied_request_line(out, &d, host);
                },
            }
        },
        LineKind::Response => {
            match parser.response_line_ref() {
                Some(rl) => {
                    write_proxied_response_status_line(out, rl);
                },
                None => {
                    let d = crate::first_line::ResponseLine::default();
                    write_proxied_response_status_line(out, &d);
                },
            }
        },
    }
    write_proxied_headers(out, parser.headers_ref());
    proof {
        assert(out@ =~= old(out)@ + spec_proxy_head(parser.kind_view(), host@, parser.config()));
    }
}

/// Emits the head of a parsed request toward the upstream host.
pub struct RequestPartProxySender {
    remote_host_name: Vec<u8>,
}

impl RequestPartProxySender {
    pub closed spec fn host_view(&self) -> Seq<u8> {
        self.remote_host_name@
    }

    pub fn new(remote_host_name: Vec<u8>) -> (r: RequestPartProxySender)
        ensures
            r.host_view() == remote_host_name@,
    {
        RequestPartProxySender { remote_host_name }
    }
}

/// Emits the head of a parsed response back toward the client.
pub struct ResponsePartProxySender {
}

/// A part of the pipeline that can re-emit a parsed head toward a peer.
pub trait ProxyHeadersSender {
    fn send_first_line_and_headers(&self, out: &mut Vec<u8>, parser: &Parser);
}

impl ProxyHeadersSender for RequestPartProxySender {
    fn send_first_line_and_headers(&self, out: &mut Vec<u8>, parser: &Parser)
        ensures
            final(out)@ == old(out)@ + spec_proxy_head(
                parser.kind_view(),
                self.host_view(),
                parser.config(),
            ),
    {
        write_proxy_head(out, parser, self.remote_host_name.as_slice())
    }
}

impl ProxyHeadersSender for ResponsePartProxySender {
    fn send_first_line_and_headers(&self, out: &mut Vec<u8>, parser: &Parser)
        ensures
            final(out)@ == old(out)@ + spec_proxy_head(
                parser.kind_view(),
                Seq::<u8>::empty(),
                parser.config(),
            ),
    {
        let host: [u8; 0] = [];
        proof {
            assert(host@ =~= Seq::<u8>::empty());
        }
        write_proxy_head(out, parser, host.as_slice())
    }
}

/// What a peer can have received from an unfinished or failed exchange:
/// nothing (the head was not complete yet), or exactly the re-emitted
/// head followed by some prefix of the body bytes seen so far.
pub open spec fn forwarded_prefix(
    rcv0: Seq<u8>,
    rcv: Seq<u8>,
    kind: LineKind,
    host: Seq<u8>,
    c: MConfig,
    s: Seq<u8>,
) -> bool {
    rcv == rcv0 || (exists|q: int|
        c.bc <= q <= s.len() && rcv == rcv0 + spec_proxy_head(kind, host, c) + s.subrange(
            c.bc,
            q,
        ))
}

/// A message parser that forwards to a peer while it parses: once the
/// head is complete it is re-emitted (rewritten), and from then on every
/// buffered byte past the body cursor goes to the peer verbatim.
pub struct ProxyParser {
    parser: Parser,
    host: Vec<u8>,
}

impl ProxyParser {
    pub closed spec fn parser_view(&self) -> Parser {
        self.parser
    }

    pub closed spec fn host_view(&self) -> Seq<u8> {
        self.host@
    }

    pub closed spec fn inv(&self) -> bool {
        self.parser.inv() && self.parser.data_view() == Seq::<u8>::empty()
            && self.parser.config() == init_config()
    }

    pub fn new(kind: LineKind, host: Vec<u8>) -> (r: ProxyParser)
        ensures
            r.inv(),
            r.parser_view().kind_view() == kind,
            r.host_view() == host@,
    {
        ProxyParser { parser: Parser::new(kind), host }
    }

    /// Parses one message from `stream`, forwarding head and body to
    /// `remote` as they become available. Success holds exactly when the
    /// bytes read parse to a complete message, and then the peer has
    /// received exactly the rewritten head followed by every buffered
    /// byte from the body cursor on. An empty stream is the quiet
    /// `FalseAlarm` with nothing forwarded; a stream that runs dry
    /// mid-message is `UpstreamClosed` with the machine still needing
    /// input; any other failure is the machine's own — and in every
    /// failing case the peer holds either nothing or the head plus a
    /// prefix of the body bytes.
    #[verifier::rlimit(100)]
    #[verifier::spinoff_prover]
    pub fn parse(&mut self, stream: &mut MockStream, remote: &mut MockStream) -> (r: Result<
        (),
        ParseFailure,
    >)
        requires
            old(self).inv(),
            old(stream).wf(),
        ensures
            final(stream).wf(),
            final(self).host_view() == old(self).host_view(),
            final(remote).data_view() == old(remote).data_view(),
            final(remote).pos_view() == old(remote).pos_view(),
            old(stream).pos_view() <= final(stream).pos_view(),
            final(self).parser_view().data_view() == old(stream).data_view().subrange(
                old(stream).pos_view(),
                final(stream).pos_view(),
            ),
            ({
                let kind = old(self).parser_view().kind_view();
                let s = final(self).parser_view().data_view();
                let c = run_machine(kind, s, init_config());
                match r {
                    Ok(()) => c.failed is None && is_terminal(c.state) && final(remote).received_view() == old(remote).received_view() + spec_proxy_head(
                        kind,
                        old(self).host_view(),
                        c,
                    ) + s.skip(c.bc),
                    Err(f) => forwarded_prefix(
                        old(remote).received_view(),
                        final(remote).received_view(),
                        kind,
                        old(self).host_view(),
                        c,
                        s,
                    ) && ((f == ParseFailure::FalseAlarm && old(stream).pos_view() == old(stream).data_view().len() && final(stream).pos_view() == old(stream).pos_view() && final(remote).received_view() == old(remote).received_view()) || (f
                        == ParseFailure::UpstreamClosed && final(stream).pos_view() == final(stream).data_view().len() && old(stream).pos_view() < final(stream).pos_view() && c.failed is None && !is_terminal(c.state)) || c.failed == Some(f)),
                }
            }),
    {
        let ghost kind = self.parser.kind_view();
        let ghost hostv = self.host@;
        let ghost rcv0 = remote.received_view();
        let first = stream.read_chunk(1024);
        if first.len() == 0 {
            proof {
                assert(old(stream).data_view().subrange(
                    old(stream).pos_view(),
                    old(stream).pos_view(),
                ) =~= Seq::<u8>::empty());
            }
            return Err(ParseFailure::FalseAlarm);
        }
        self.parser.add_to_data(first.as_slice());
        proof {
            assert(self.parser.data_view() =~= old(stream).data_view().subrange(
                old(stream).pos_view(),
                stream.pos_view(),
            ));
        }
        let mut headers_sent: bool = false;
        let mut sent_upto: usize = 0;
        loop
            invariant
                self.parser.inv(),
                self.parser.kind_view() == kind,
                kind == old(self).parser_view().kind_view(),
                self.host@ == hostv,
                hostv == old(self).host_view(),
                rcv0 == old(remote).received_view(),
                stream.wf(),
                old(stream).wf(),
                stream.data_view() == old(stream).data_view(),
                old(stream).pos_view() < stream.pos_view(),
                self.parser.data_view() == old(stream).data_view().subrange(
                    old(stream).pos_view(),
                    stream.pos_view(),
                ),
                remote.data_view() == old(remote).data_view(),
                remote.pos_view() == old(remote).pos_view(),
                headers_sent ==> past_headers(self.parser.config().state) && 0
                    <= self.parser.config().bc <= sent_upto <= self.parser.data_view().len()
                    && remote.received_view() == rcv0 + spec_proxy_head(
                    kind,
                    hostv,
                    self.parser.config(),
                ) + self.parser.data_view().subrange(self.parser.config().bc, sent_upto as int),
                !headers_sent ==> remote.received_view() == rcv0 && !past_headers(
                    self.parser.config().state,
                ) && self.parser.config().failed is None,
            decreases stream.data_view().len() - stream.pos_view(),
        {
            let ghost c_before = self.parser.config();
            let step = self.parser.advance();
            proof {
                if headers_sent {
                    crate::message::lemma_run_preserves_head(
                        kind,
                        self.parser.data_view(),
                        c_before,
                    );
                    assert(self.parser.config().first == c_before.first);
                    assert(self.parser.config().headers == c_before.headers);
                    assert(self.parser.config().bc == c_before.bc);
                }
            }
            match step {
                Step::Failed(f) => {
                    proof {
                        if headers_sent {
                            assert(spec_proxy_head(kind, hostv, self.parser.config())
                                == spec_proxy_head(kind, hostv, c_before));
                            assert(remote.received_view() == rcv0 + spec_proxy_head(
                                kind,
                                hostv,
                                self.parser.config(),
                            ) + self.parser.data_view().subrange(
                                self.parser.config().bc,
                                sent_upto as int,
                            ));
                        }
                    }
                    return Err(f);
                },
                Step::Complete => {
                    if !headers_sent {
                        let mut head: Vec<u8> = Vec::new();
                        write_proxy_head(&mut head, &self.parser, self.host.as_slice());
                        remote.write_bytes(head.as_slice());
                        sent_upto = self.parser.body_cursor();
                        headers_sent = true;
                        proof {
                            assert(remote.received_view() =~= rcv0 + spec_proxy_head(
                                kind,
                                hostv,
                                self.parser.config(),
                            ) + self.parser.data_view().subrange(
                                self.parser.config().bc,
                                sent_upto as int,
                            ));
                        }
                    }
                    let len = self.parser.data_len();
                    let rest = self.parser.data_slice(sent_upto, len);
                    remote.write_bytes(rest);
                    proof {
                        assert(self.parser.data_view().subrange(
                            self.parser.config().bc,
                            sent_upto as int,
                        ) + self.parser.data_view().subrange(sent_upto as int, len as int)
                            =~= self.parser.data_view().skip(self.parser.config().bc));
                        assert(remote.received_view() =~= rcv0 + spec_proxy_head(
                            kind,
                            hostv,
                            self.parser.config(),
                        ) + self.parser.data_view().skip(self.parser.config().bc));
                    }
                    return Ok(());
                },
                Step::NeedMoreBytes => {
                    if !headers_sent && self.parser.is_past_headers() {
                        let mut head: Vec<u8> = Vec::new();
                        write_proxy_head(&mut head, &self.parser, self.host.as_slice());
                        remote.write_bytes(head.as_slice());
                        sent_upto = self.parser.body_cursor();
                        headers_sent = true;
                        proof {
                            assert(remote.received_view() =~= rcv0 + spec_proxy_head(
                                kind,
                                hostv,
                                self.parser.config(),
                            ) + self.parser.data_view().subrange(
                                self.parser.config().bc,
                                sent_upto as int,
                            ));
                        }
                    }
                    if headers_sent {
                        let len = self.parser.data_len();
                        let rest = self.parser.data_slice(sent_upto, len);
                        remote.write_bytes(rest);
                        proof {
                            assert(self.parser.data_view().subrange(
                                self.parser.config().bc,
                                sent_upto as int,
                            ) + self.parser.data_view().subrange(sent_upto as int, len as int)
                                =~= self.parser.data_view().subrange(
                                self.parser.config().bc,
                                len as int,
                            ));
                            assert(remote.received_view() =~= rcv0 + spec_proxy_head(
                                kind,
                                hostv,
                                self.parser.config(),
                            ) + self.parser.data_view().subrange(
                                self.parser.config().bc,
                                len as int,
                            ));
                        }
                        sent_upto = len;
                    }
                    let ghost p_before = stream.pos_view();
                    let chunk = stream.read_chunk(1024);
                    if chunk.len() == 0 {
                        proof {
                            if headers_sent {
                                assert(remote.received_view() == rcv0 + spec_proxy_head(
                                    kind,
                                    hostv,
                                    self.parser.config(),
                                ) + self.parser.data_view().subrange(
                                    self.parser.config().bc,
                                    sent_upto as int,
                                ));
                            }
                        }
                        return Err(ParseFailure::UpstreamClosed);
                    }
                    let ghost d0 = self.parser.data_view();
                    self.parser.add_to_data(chunk.as_slice());
                    proof {
                        let sd = old(stream).data_view();
                        assert(sd.subrange(old(stream).pos_view(), p_before) + sd.subrange(
                            p_before,
                            stream.pos_view(),
                        ) =~= sd.subrange(old(stream).pos_view(), stream.pos_view()));
                        assert(self.parser.data_view() =~= sd.subrange(
                            old(stream).pos_view(),
                            stream.pos_view(),
                        ));
                        if headers_sent {
                            assert(d0.subrange(self.parser.config().bc, sent_upto as int)
                                =~= self.parser.data_view().subrange(
                                self.parser.config().bc,
                                sent_upto as int,
                            ));
                        }
                    }
                },
            }
        }
    }
}

} // verus!
