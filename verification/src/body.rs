//! The chunked-body parser: alternating hexadecimal size lines and data
//! lines, with a zero size line ending the body. Chunk extensions after a
//! `;` on the size line are accepted and ignored.
use vstd::prelude::*;

use crate::message::ParseError;
use crate::scan::{find_field_line_index, spec_find_byte, spec_line_end, CR, LF};

verus! {

pub const SEMICOLON: u8 = 59;

/// A hexadecimal digit, either case.
pub open spec fn is_hex_digit(b: u8) -> bool {
    (48 <= b <= 57) || (97 <= b <= 102) || (65 <= b <= 70)
}

/// Numeric value of a hexadecimal digit.
pub open spec fn hex_val(b: u8) -> int {
    if 48 <= b <= 57 {
        b - 48
    } else if 97 <= b <= 102 {
        b - 87
    } else {
        b - 55
    }
}

/// A non-empty run of hexadecimal digits.
pub open spec fn spec_is_hex(s: Seq<u8>) -> bool {
    s.len() > 0 && forall|j: int| 0 <= j < s.len() ==> is_hex_digit(s[j])
}

/// Value of a hexadecimal digit string, most significant digit first.
pub open spec fn spec_hex_value(s: Seq<u8>) -> int
    decreases s.len(),
{
    if s.len() == 0 {
        0
    } else {
        spec_hex_value(s.take(s.len() - 1)) * 16 + hex_val(s[s.len() - 1])
    }
}

proof fn lemma_hex_value_nonneg(s: Seq<u8>)
    requires
        forall|j: int| 0 <= j < s.len() ==> is_hex_digit(s[j]),
    ensures
        spec_hex_value(s) >= 0,
    decreases s.len(),
{
    if s.len() > 0 {
        lemma_hex_value_nonneg(s.take(s.len() - 1));
    }
}

proof fn lemma_hex_value_mono(s: Seq<u8>, j: int)
    requires
        0 <= j <= s.len(),
        forall|k: int| 0 <= k < s.len() ==> is_hex_digit(s[k]),
    ensures
        spec_hex_value(s.take(j)) <= spec_hex_value(s),
    decreases s.len(),
{
    if j == s.len() {
        assert(s.take(j) =~= s);
    } else {
        let s1 = s.take(s.len() - 1);
        lemma_hex_value_nonneg(s1);
        lemma_hex_value_mono(s1, j);
        assert(s1.take(j) =~= s.take(j));
        assert(spec_hex_value(s1) * 16 >= spec_hex_value(s1));
    }
}

fn hex_digit(b: u8) -> (r: Option<u8>)
    ensures
        match r {
            Some(d) => is_hex_digit(b) && d == hex_val(b),
            None => !is_hex_digit(b),
        },
{
    if 48 <= b && b <= 57 {
        Some(b - 48)
    } else if 97 <= b && b <= 102 {
        Some(b - 87)
    } else if 65 <= b && b <= 70 {
        Some(b - 55)
    } else {
        None
    }
}

/// Parses a hexadecimal digit string into a machine word; `None` when the
/// string is not all hex digits or its value does not fit.
pub fn parse_hex(s: &[u8]) -> (r: Option<usize>)
    ensures
        match r {
            Some(v) => spec_is_hex(s@) && v == spec_hex_value(s@),
            None => !spec_is_hex(s@) || spec_hex_value(s@) > usize::MAX,
        },
{
    let n = s.len();
    if n == 0 {
        return None;
    }
    let mut acc: usize = 0;
    let mut j: usize = 0;
    proof {
        assert(s@.take(0) =~= Seq::<u8>::empty());
    }
    while j < n
        invariant
            n == s@.len(),
            j <= n,
            forall|k: int| 0 <= k < j ==> is_hex_digit(s@[k]),
            acc == spec_hex_value(s@.take(j as int)),
        decreases n - j,
    {
        let d = match hex_digit(s[j]) {
            Some(d) => d,
            None => {
                return None;
            },
        };
        proof {
            assert(s@.take(j + 1).take(j as int) =~= s@.take(j as int));
            assert(spec_hex_value(s@.take(j + 1)) == acc * 16 + hex_val(s@[j as int]));
        }
        if acc > (usize::MAX - d as usize) / 16 {
            proof {
                assert(acc * 16 + d > usize::MAX) by (nonlinear_arith)
                    requires
                        acc > (usize::MAX - d as usize) / 16,
                        0 <= d < 16,
                ;
                if forall|k: int| 0 <= k < s@.len() ==> is_hex_digit(s@[k]) {
                    lemma_hex_value_mono(s@, j + 1);
                }
            }
            return None;
        }
        proof {
            assert(acc * 16 + d <= usize::MAX) by (nonlinear_arith)
                requires
                    acc <= (usize::MAX - d as usize) / 16,
                    0 <= d < 16,
            ;
        }
        acc = acc * 16 + d as usize;
        j = j + 1;
    }
    proof {
        assert(s@.take(n as int) =~= s@);
    }
    Some(acc)
}

/// Size given by a chunk size line (without its CRLF): the hexadecimal
/// count before any `;`-introduced extension, which is ignored.
#[verifier::opaque]
pub open spec fn spec_chunk_size(line: Seq<u8>) -> Option<int> {
    let sp = match spec_find_byte(line, SEMICOLON) {
        Some(i) => line.take(i),
        None => line,
    };
    if spec_is_hex(sp) {
        Some(spec_hex_value(sp))
    } else {
        None
    }
}

/// A chunk size, where the size line parses at all, is never negative.
pub proof fn lemma_chunk_size_nonneg(line: Seq<u8>)
    ensures
        spec_chunk_size(line) matches Some(v) ==> v >= 0,
{
    reveal(spec_chunk_size);
    let sp = match spec_find_byte(line, SEMICOLON) {
        Some(i) => line.take(i),
        None => line,
    };
    if spec_is_hex(sp) {
        lemma_hex_value_nonneg(sp);
    }
}

/// One step of chunked-body parsing: what a `BodyParser` in phase
/// (`phase_data`, `to_get`, `body`) does with `data`, as
/// (new phase, new count, new body, bytes consumed) or a signal.
pub open spec fn spec_body_step(
    phase_data: bool,
    to_get: int,
    body: Seq<u8>,
    data: Seq<u8>,
) -> Result<(bool, int, Seq<u8>, int), ParseError> {
    if !phase_data {
        match spec_line_end(data) {
            None => Err(ParseError::NotEnoughBytes),
            Some(i) => match spec_chunk_size(data.take(i - 2)) {
                None => Err(ParseError::OtherError),
                Some(v) => if v == 0 {
                    Err(ParseError::HeadersDone)
                } else if v > usize::MAX {
                    Err(ParseError::OtherError)
                } else {
                    Ok((true, v, body, i))
                },
            },
        }
    } else {
        if data.len() < to_get + 2 {
            Err(ParseError::NotEnoughBytes)
        } else if !(data[to_get] == CR && data[to_get + 1] == LF) {
            Err(ParseError::OtherError)
        } else {
            Ok((false, 0, body + data.take(to_get), to_get + 2))
        }
    }
}

/// The pending chunk count is a machine word, so it is never negative.
pub broadcast proof fn lemma_to_retrieve_nonneg(bp: &BodyParser)
    ensures
        #[trigger] bp.to_retrieve_view() >= 0,
{
}

enum BodyChunkPart {
    DataSizePart,
    DataContentPart,
}

/// Accumulates a message body. In chunked mode it alternates between a
/// size phase and a data phase; in content-length mode the message parser
/// appends the body bytes directly.
pub struct BodyParser {
    body: Vec<u8>,
    body_chunk_part: BodyChunkPart,
    bytes_to_retrieve: usize,
}

impl BodyParser {
    /// The body bytes accumulated so far.
    pub closed spec fn body_view(&self) -> Seq<u8> {
        self.body@
    }

    /// Whether the parser expects chunk data (rather than a size line).
    pub closed spec fn phase_is_data(&self) -> bool {
        self.body_chunk_part is DataContentPart
    }

    /// How many data bytes the current chunk still owes.
    pub closed spec fn to_retrieve_view(&self) -> int {
        self.bytes_to_retrieve as int
    }

    pub fn new() -> (r: BodyParser)
        ensures
            r.body_view() == Seq::<u8>::empty(),
            !r.phase_is_data(),
            r.to_retrieve_view() == 0,
    {
        BodyParser {
            body: Vec::new(),
            body_chunk_part: BodyChunkPart::DataSizePart,
            bytes_to_retrieve: 0,
        }
    }

    /// Runs one chunked-body step at the front of `data`, returning how
    /// many bytes it consumed. `HeadersDone` reports an unconsumed zero
    /// size line; `NotEnoughBytes` asks the caller for more input.
    pub fn parse_body(&mut self, data: &[u8]) -> (r: Result<usize, ParseError>)
        ensures
            match r {
                Ok(i) => 2 <= i <= data@.len() && spec_body_step(
                    old(self).phase_is_data(),
                    old(self).to_retrieve_view(),
                    old(self).body_view(),
                    data@,
                ) == Ok::<_, ParseError>(
                    (final(self).phase_is_data(), final(self).to_retrieve_view(), final(self).body_view(), i as int),
                ),
                Err(e) => spec_body_step(
                    old(self).phase_is_data(),
                    old(self).to_retrieve_view(),
                    old(self).body_view(),
                    data@,
                ) == Err::<(bool, int, Seq<u8>, int), _>(e) && final(self).phase_is_data() == old(self).phase_is_data() && final(self).to_retrieve_view() == old(self).to_retrieve_view()
                    && final(self).body_view() == old(self).body_view(),
            },
    {
        match self.body_chunk_part {
            BodyChunkPart::DataSizePart => self.parse_chunked_body_size(data),
            BodyChunkPart::DataContentPart => self.parse_chunked_body_content(data),
        }
    }

    fn parse_chunked_body_size(&mut self, data: &[u8]) -> (r: Result<usize, ParseError>)
        requires
            !old(self).phase_is_data(),
        ensures
            match r {
                Ok(i) => 2 <= i <= data@.len() && spec_body_step(
                    false,
                    old(self).to_retrieve_view(),
                    old(self).body_view(),
                    data@,
                ) == Ok::<_, ParseError>(
                    (final(self).phase_is_data(), final(self).to_retrieve_view(), final(self).body_view(), i as int),
                ),
                Err(e) => spec_body_step(
                    false,
                    old(self).to_retrieve_view(),
                    old(self).body_view(),
                    data@,
                ) == Err::<(bool, int, Seq<u8>, int), _>(e) && final(self).phase_is_data() == old(self).phase_is_data() && final(self).to_retrieve_view() == old(self).to_retrieve_view()
                    && final(self).body_view() == old(self).body_view(),
            },
    {
        proof {
            reveal(spec_chunk_size);
        }
        let i = match find_field_line_index(data) {
            Some(i) => i,
            None => {
                return Err(ParseError::NotEnoughBytes);
            },
        };
        let line = vstd::slice::slice_subrange(data, 0, i - 2);
        proof {
            assert(line@ =~= data@.take(i - 2));
        }
        let size_part: &[u8] = match crate::scan::find_byte(line, SEMICOLON) {
            Some(k) => vstd::slice::slice_subrange(line, 0, k),
            None => line,
        };
        proof {
            match spec_find_byte(line@, SEMICOLON) {
                Some(k) => {
                    assert(size_part@ =~= line@.take(k));
                },
                None => {},
            }
        }
        let v = match parse_hex(size_part) {
            Some(v) => v,
            None => {
                return Err(ParseError::OtherError);
            },
        };
        if v == 0 {
            return Err(ParseError::HeadersDone);
        }
        self.bytes_to_retrieve = v;
        self.set_body_chunk_part();
        Ok(i)
    }

    fn parse_chunked_body_content(&mut self, data: &[u8]) -> (r: Result<usize, ParseError>)
        requires
            old(self).phase_is_data(),
        ensures
            match r {
                Ok(i) => 2 <= i <= data@.len() && spec_body_step(
                    true,
                    old(self).to_retrieve_view(),
                    old(self).body_view(),
                    data@,
                ) == Ok::<_, ParseError>(
                    (final(self).phase_is_data(), final(self).to_retrieve_view(), final(self).body_view(), i as int),
                ),
                Err(e) => spec_body_step(
                    true,
                    old(self).to_retrieve_view(),
                    old(self).body_view(),
                    data@,
                ) == Err::<(bool, int, Seq<u8>, int), _>(e) && final(self).phase_is_data() == old(self).phase_is_data() && final(self).to_retrieve_view() == old(self).to_retrieve_view()
                    && final(self).body_view() == old(self).body_view(),
            },
    {
        let n = data.len();
        let need = self.bytes_to_retrieve;
        if n < need || n - need < 2 {
            return Err(ParseError::NotEnoughBytes);
        }
        if !(data[need] == CR && data[need + 1] == LF) {
            return Err(ParseError::OtherError);
        }
        let chunk = vstd::slice::slice_subrange(data, 0, need);
        crate::bytes::append_bytes(&mut self.body, chunk);
        proof {
            assert(chunk@ =~= data@.take(need as int));
        }
        self.bytes_to_retrieve = 0;
        self.set_body_chunk_part();
        Ok(need + 2)
    }

    fn set_body_chunk_part(&mut self)
        ensures
            final(self).phase_is_data() == !old(self).phase_is_data(),
            final(self).body_view() == old(self).body_view(),
            final(self).to_retrieve_view() == old(self).to_retrieve_view(),
    {
        match self.body_chunk_part {
            BodyChunkPart::DataSizePart => self.body_chunk_part = BodyChunkPart::DataContentPart,
            BodyChunkPart::DataContentPart => self.body_chunk_part = BodyChunkPart::DataSizePart,
        }
    }

    /// Appends `data[..to_retrieve]` to the body when enough bytes are
    /// present; used when the caller frames chunk data itself.
    pub fn add_chunk_to_body(&mut self, data: &[u8]) -> (r: Result<(), ParseError>)
        ensures
            match r {
                Ok(()) => old(self).to_retrieve_view() <= data@.len() && final(self).body_view()
                    == old(self).body_view() + data@.take(old(self).to_retrieve_view()),
                Err(e) => e == ParseError::OtherError && old(self).to_retrieve_view() > data@.len()
                    && final(self).body_view() == old(self).body_view(),
            },
            final(self).phase_is_data() == old(self).phase_is_data(),
            final(self).to_retrieve_view() == old(self).to_retrieve_view(),
    {
        let need = self.bytes_to_retrieve;
        if need <= data.len() {
            let chunk = vstd::slice::slice_subrange(data, 0, need);
            crate::bytes::append_bytes(&mut self.body, chunk);
            proof {
                assert(chunk@ =~= data@.take(need as int));
            }
            Ok(())
        } else {
            Err(ParseError::OtherError)
        }
    }

    /// Appends `data` to the body unconditionally; used in content-length
    /// mode.
    pub fn add_to_body(&mut self, data: &[u8])
        ensures
            final(self).body_view() == old(self).body_view() + data@,
            final(self).phase_is_data() == old(self).phase_is_data(),
            final(self).to_retrieve_view() == old(self).to_retrieve_view(),
    {
        crate::bytes::append_bytes(&mut self.body, data);
    }

    /// The accumulated body, by move.
    pub fn get_body(self) -> (r: Vec<u8>)
        ensures
            r@ == self.body_view(),
    {
        self.body
    }
}

proof fn lemma_hex_digits_chars(n: int)
    requires
        n >= 0,
    ensures
        forall|j: int|
            0 <= j < crate::bytes::spec_hex_digits_upper(n).len() ==> is_hex_digit(
                #[trigger] crate::bytes::spec_hex_digits_upper(n)[j],
            ),
        crate::bytes::spec_hex_digits_upper(n).len() > 0,
    decreases n,
{
    if n >= 16 {
        lemma_hex_digits_chars(n / 16);
    }
}

proof fn lemma_hex_value_snoc(s: Seq<u8>, b: u8)
    ensures
        spec_hex_value(s.push(b)) == spec_hex_value(s) * 16 + hex_val(b),
{
    assert(s.push(b).take(s.len() as int) =~= s);
}

/// Encoding a length in uppercase hexadecimal and decoding it again gives
/// the length back.
pub proof fn lemma_hex_roundtrip(n: int)
    requires
        n >= 0,
    ensures
        spec_is_hex(crate::bytes::spec_hex_digits_upper(n)),
        spec_hex_value(crate::bytes::spec_hex_digits_upper(n)) == n,
    decreases n,
{
    lemma_hex_digits_chars(n);
    if n < 16 {
        assert(crate::bytes::spec_hex_digits_upper(n) == seq![
            crate::bytes::hex_digit_upper(n),
        ]);
        assert(spec_hex_value(seq![crate::bytes::hex_digit_upper(n)]) == spec_hex_value(
            seq![crate::bytes::hex_digit_upper(n)].take(0),
        ) * 16 + hex_val(crate::bytes::hex_digit_upper(n)));
        assert(seq![crate::bytes::hex_digit_upper(n)].take(0) =~= Seq::<u8>::empty());
    } else {
        lemma_hex_roundtrip(n / 16);
        let d = crate::bytes::hex_digit_upper(n % 16);
        assert(crate::bytes::spec_hex_digits_upper(n) == crate::bytes::spec_hex_digits_upper(
            n / 16,
        ) + seq![d]);
        assert(crate::bytes::spec_hex_digits_upper(n / 16) + seq![d]
            =~= crate::bytes::spec_hex_digits_upper(n / 16).push(d));
        lemma_hex_value_snoc(crate::bytes::spec_hex_digits_upper(n / 16), d);
    }
}

/// One encoded chunk decodes back to exactly its data: fed the frame of
/// `c` (as the response writer emits it), the body parser first reads the
/// size line, then appends `c` — and only `c` — to the body and consumes
/// the trailing CRLF. Size lines never reach the body.
pub proof fn lemma_chunk_frame_roundtrip(body: Seq<u8>, c: Seq<u8>, rest: Seq<u8>)
    requires
        0 < c.len() <= usize::MAX,
    ensures
        ({
            let u = crate::writer::chunk_frame(c) + rest;
            let h = crate::bytes::spec_hex_digits_upper(c.len() as int).len() as int;
            &&& spec_body_step(false, 0, body, u) == Ok::<_, ParseError>(
                (true, c.len() as int, body, h + 2),
            )
            &&& spec_body_step(true, c.len() as int, body, u.skip(h + 2)) == Ok::<
                _,
                ParseError,
            >((false, 0int, body + c, c.len() as int + 2))
        }),
{
    let digits = crate::bytes::spec_hex_digits_upper(c.len() as int);
    let h = digits.len() as int;
    let u = crate::writer::chunk_frame(c) + rest;
    lemma_hex_digits_chars(c.len() as int);
    lemma_hex_roundtrip(c.len() as int);
    assert(u.len() == h + 2 + c.len() + 2 + rest.len());
    assert forall|j: int| 0 <= j < h implies u[j] == digits[j] by {}
    assert(u[h] == CR && u[h + 1] == LF);
    assert(crate::scan::is_crlf_at(u, h));
    assert forall|j: int| 0 <= j < h implies !crate::scan::is_crlf_at(u, j) by {
        assert(is_hex_digit(u[j]));
    }
    crate::scan::lemma_line_end_at(u, h);
    assert(u.take(h) =~= digits);
    assert forall|j: int| 0 <= j < digits.len() implies digits[j] != SEMICOLON by {
        assert(is_hex_digit(digits[j]));
    }
    crate::scan::lemma_find_byte_none(digits, SEMICOLON);
    reveal(spec_chunk_size);
    assert(spec_chunk_size(u.take(h)) == Some(c.len() as int));
    assert(spec_body_step(false, 0, body, u) == Ok::<_, ParseError>(
        (true, c.len() as int, body, h + 2),
    ));
    let u2 = u.skip(h + 2);
    assert(u2.len() == c.len() + 2 + rest.len());
    assert(u2[c.len() as int] == CR && u2[c.len() as int + 1] == LF);
    assert(u2.take(c.len() as int) =~= c);
    assert(spec_body_step(true, c.len() as int, body, u2) == Ok::<_, ParseError>(
        (false, 0int, body + c, c.len() as int + 2),
    ));
}


/// The wire form of a chunk list: each chunk framed, then the zero-size
/// line that ends the body (the trailer section or blank line follows).
pub open spec fn chunked_body_bytes(chunks: Seq<Seq<u8>>) -> Seq<u8>
    decreases chunks.len(),
{
    if chunks.len() == 0 {
        seq![48u8, 13u8, 10u8]
    } else {
        crate::writer::chunk_frame(chunks[0]) + chunked_body_bytes(chunks.skip(1))
    }
}

/// The concatenation of a chunk list.
pub open spec fn flatten_chunks(chunks: Seq<Seq<u8>>) -> Seq<u8>
    decreases chunks.len(),
{
    if chunks.len() == 0 {
        Seq::empty()
    } else {
        chunks[0] + flatten_chunks(chunks.skip(1))
    }
}

/// From the size phase with `body` accumulated, taking `nsteps` pairs of
/// size and data steps on `u` ends at a zero size line with `bodyf`
/// accumulated.
pub open spec fn decodes_chunked_to(body: Seq<u8>, u: Seq<u8>, nsteps: int, bodyf: Seq<u8>) -> bool
    decreases nsteps,
{
    if nsteps <= 0 {
        spec_body_step(false, 0, body, u) == Err::<(bool, int, Seq<u8>, int), _>(
            ParseError::HeadersDone,
        ) && body == bodyf
    } else {
        match spec_body_step(false, 0, body, u) {
            Ok(st) => match spec_body_step(true, st.1, st.2, u.skip(st.3)) {
                Ok(st2) => decodes_chunked_to(st2.2, u.skip(st.3).skip(st2.3), nsteps - 1, bodyf),
                _ => false,
            },
            _ => false,
        }
    }
}

/// The zero-size line ends the body, whatever follows it.
#[verifier::rlimit(100)]
proof fn lemma_terminator_step(body: Seq<u8>, rest: Seq<u8>)
    ensures
        spec_body_step(false, 0, body, seq![48u8, 13u8, 10u8] + rest) == Err::<
            (bool, int, Seq<u8>, int),
            _,
        >(ParseError::HeadersDone),
{
    let u = seq![48u8, 13u8, 10u8] + rest;
    assert(u[0] == 48 && u[1] == CR && u[2] == LF);
    assert(crate::scan::is_crlf_at(u, 1));
    assert forall|j: int| 0 <= j < 1 implies !crate::scan::is_crlf_at(u, j) by {
        assert(u[0] == 48);
    }
    crate::scan::lemma_line_end_at(u, 1);
    assert(u.take(1) =~= seq![48u8]);
    reveal(spec_chunk_size);
    crate::scan::lemma_find_byte_none(seq![48u8], SEMICOLON);
    assert(seq![48u8].take(0) =~= Seq::<u8>::empty());
    assert(spec_hex_value(Seq::<u8>::empty()) == 0);
    assert(spec_hex_value(seq![48u8]) == spec_hex_value(seq![48u8].take(0)) * 16 + hex_val(48));
    assert(spec_hex_value(seq![48u8]) == 0);
    assert(spec_chunk_size(u.take(1)) == Some(0int));
}

/// One frame at the head of the stream: the two steps it causes and what
/// remains afterwards.
#[verifier::rlimit(100)]
#[verifier::spinoff_prover]
proof fn lemma_chunk_step(body: Seq<u8>, c: Seq<u8>, tail: Seq<u8>)
    requires
        0 < c.len() <= usize::MAX,
    ensures
        ({
            let u = crate::writer::chunk_frame(c) + tail;
            let h = crate::bytes::spec_hex_digits_upper(c.len() as int).len() as int;
            &&& spec_body_step(false, 0, body, u) == Ok::<_, ParseError>(
                (true, c.len() as int, body, h + 2),
            )
            &&& spec_body_step(true, c.len() as int, body, u.skip(h + 2)) == Ok::<
                _,
                ParseError,
            >((false, 0int, body + c, c.len() as int + 2))
            &&& u.skip(h + 2).skip(c.len() as int + 2) == tail
        }),
{
    lemma_chunk_frame_roundtrip(body, c, tail);
    let u = crate::writer::chunk_frame(c) + tail;
    let h = crate::bytes::spec_hex_digits_upper(c.len() as int).len() as int;
    lemma_hex_digits_chars(c.len() as int);
    assert(u.skip(h + 2).skip(c.len() as int + 2) =~= tail);
}

/// Prepending one frame to a decodable stream adds one decode step.
#[verifier::rlimit(100)]
#[verifier::spinoff_prover]
proof fn lemma_decodes_step(body: Seq<u8>, c: Seq<u8>, tail: Seq<u8>, n: int, bodyf: Seq<u8>)
    requires
        0 < c.len() <= usize::MAX,
        n >= 0,
        decodes_chunked_to(body + c, tail, n, bodyf),
    ensures
        decodes_chunked_to(body, crate::writer::chunk_frame(c) + tail, n + 1, bodyf),
{
    lemma_chunk_step(body, c, tail);
}

/// A whole chunked body decodes to the concatenation of its chunks: the
/// data of every frame, and nothing else — no size line — enters the
/// body, and decoding ends at the zero-size terminator.
#[verifier::rlimit(100)]
#[verifier::spinoff_prover]
pub proof fn lemma_chunked_body_roundtrip(body: Seq<u8>, chunks: Seq<Seq<u8>>, rest: Seq<u8>)
    requires
        forall|i: int| 0 <= i < chunks.len() ==> 0 < #[trigger] chunks[i].len() <= usize::MAX,
    ensures
        decodes_chunked_to(
            body,
            chunked_body_bytes(chunks) + rest,
            chunks.len() as int,
            body + flatten_chunks(chunks),
        ),
    decreases chunks.len(),
{
    let u = chunked_body_bytes(chunks) + rest;
    if chunks.len() == 0 {
        lemma_terminator_step(body, rest);
        assert(body + flatten_chunks(chunks) =~= body);
    } else {
        let c = chunks[0];
        let tail = chunked_body_bytes(chunks.skip(1)) + rest;
        assert(u =~= crate::writer::chunk_frame(c) + tail);
        assert forall|i: int| 0 <= i < chunks.skip(1).len() implies 0 < #[trigger] chunks.skip(
            1,
        )[i].len() <= usize::MAX by {
            assert(chunks.skip(1)[i] == chunks[i + 1]);
        }
        lemma_chunked_body_roundtrip(body + c, chunks.skip(1), rest);
        assert((body + c) + flatten_chunks(chunks.skip(1)) =~= body + flatten_chunks(chunks));
        lemma_decodes_step(
            body,
            c,
            tail,
            chunks.len() as int - 1,
            body + flatten_chunks(chunks),
        );
    }
}

} // verus!
