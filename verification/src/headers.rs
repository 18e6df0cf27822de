//! The header mapping and the header-line grammar.
//!
//! Keys are lowercased on insertion and kept unique: inserting an existing
//! key appends the new value to the old one, joined by a comma. Lookup
//! lowercases the queried key, so it is case-insensitive.
use vstd::prelude::*;

use crate::bytes::{append_bytes, bytes_eq, lower_bytes, to_lower, trim_bytes, trim_spec};
use crate::scan::{find_field_line_index, is_field_name, is_valid_field_name, spec_find_byte,
    spec_line_end, find_byte, CR, LF};

verus! {

pub const COMMA: u8 = 44;
pub const COLON: u8 = 58;

/// Value stored under `k` in the entry list `m`, if any.
pub open spec fn hm_lookup(m: Seq<(Seq<u8>, Seq<u8>)>, k: Seq<u8>) -> Option<Seq<u8>>
    decreases m.len(),
{
    if m.len() == 0 {
        None
    } else if m[0].0 == k {
        Some(m[0].1)
    } else {
        hm_lookup(m.skip(1), k)
    }
}

/// Entry list after inserting `(k, v)`: a fresh key is appended, an existing
/// key has `v` joined to its value with a comma.
pub open spec fn hm_insert(m: Seq<(Seq<u8>, Seq<u8>)>, k: Seq<u8>, v: Seq<u8>) -> Seq<
    (Seq<u8>, Seq<u8>),
>
    decreases m.len(),
{
    if m.len() == 0 {
        seq![(k, v)]
    } else if m[0].0 == k {
        seq![(m[0].0, m[0].1 + seq![COMMA] + v)] + m.skip(1)
    } else {
        seq![m[0]] + hm_insert(m.skip(1), k, v)
    }
}

/// Well-formed entry list: keys are unique and stored lowercase.
pub open spec fn hm_wf(m: Seq<(Seq<u8>, Seq<u8>)>) -> bool {
    (forall|i: int, j: int| 0 <= i < j < m.len() ==> m[i].0 != m[j].0) && (forall|i: int|
        0 <= i < m.len() ==> lower_bytes(#[trigger] m[i].0) == m[i].0)
}

pub proof fn lemma_hm_lookup_at(m: Seq<(Seq<u8>, Seq<u8>)>, k: Seq<u8>, i: int)
    requires
        0 <= i < m.len(),
        m[i].0 == k,
        forall|j: int| 0 <= j < i ==> m[j].0 != k,
    ensures
        hm_lookup(m, k) == Some(m[i].1),
    decreases i,
{
    if i > 0 {
        lemma_hm_lookup_at(m.skip(1), k, i - 1);
    }
}

pub proof fn lemma_hm_lookup_none(m: Seq<(Seq<u8>, Seq<u8>)>, k: Seq<u8>)
    requires
        forall|j: int| 0 <= j < m.len() ==> m[j].0 != k,
    ensures
        hm_lookup(m, k) is None,
    decreases m.len(),
{
    if m.len() > 0 {
        lemma_hm_lookup_none(m.skip(1), k);
    }
}

pub proof fn lemma_hm_insert_found(m: Seq<(Seq<u8>, Seq<u8>)>, k: Seq<u8>, v: Seq<u8>, i: int)
    requires
        0 <= i < m.len(),
        m[i].0 == k,
        forall|j: int| 0 <= j < i ==> m[j].0 != k,
    ensures
        hm_insert(m, k, v) == m.update(i, (k, m[i].1 + seq![COMMA] + v)),
    decreases i,
{
    if i == 0 {
        assert(hm_insert(m, k, v) =~= m.update(0, (k, m[0].1 + seq![COMMA] + v)));
    } else {
        lemma_hm_insert_found(m.skip(1), k, v, i - 1);
        assert(seq![m[0]] + m.skip(1).update(i - 1, (k, m[i].1 + seq![COMMA] + v)) =~= m.update(
            i,
            (k, m[i].1 + seq![COMMA] + v),
        ));
    }
}

pub proof fn lemma_hm_insert_notfound(m: Seq<(Seq<u8>, Seq<u8>)>, k: Seq<u8>, v: Seq<u8>)
    requires
        forall|j: int| 0 <= j < m.len() ==> m[j].0 != k,
    ensures
        hm_insert(m, k, v) == m.push((k, v)),
    decreases m.len(),
{
    if m.len() == 0 {
        assert(hm_insert(m, k, v) =~= m.push((k, v)));
    } else {
        lemma_hm_insert_notfound(m.skip(1), k, v);
        assert(seq![m[0]] + m.skip(1).push((k, v)) =~= m.push((k, v)));
    }
}

/// How `hm_insert` changes what `hm_lookup` sees, for every key.
pub proof fn lemma_hm_insert_lookup(m: Seq<(Seq<u8>, Seq<u8>)>, k: Seq<u8>, v: Seq<u8>, q: Seq<u8>)
    ensures
        hm_lookup(hm_insert(m, k, v), q) == if q == k {
            match hm_lookup(m, k) {
                None => Some(v),
                Some(v0) => Some(v0 + seq![COMMA] + v),
            }
        } else {
            hm_lookup(m, q)
        },
    decreases m.len(),
{
    if m.len() == 0 {
        let m2 = hm_insert(m, k, v);
        assert(m2 == seq![(k, v)]);
        assert(m2[0] == (k, v));
        assert(m2.skip(1) =~= Seq::<(Seq<u8>, Seq<u8>)>::empty());
        if q == k {
            assert(hm_lookup(m2, q) == Some(v));
        } else {
            assert(hm_lookup(m2, q) == hm_lookup(m2.skip(1), q));
            assert(hm_lookup(m2.skip(1), q) is None);
        }
    } else if m[0].0 == k {
        let m2 = hm_insert(m, k, v);
        assert(m2 == seq![(m[0].0, m[0].1 + seq![COMMA] + v)] + m.skip(1));
        assert(m2.skip(1) =~= m.skip(1));
        assert(m2[0] == (m[0].0, m[0].1 + seq![COMMA] + v));
        if q == k {
            assert(hm_lookup(m2, q) == Some(m2[0].1));
            assert(hm_lookup(m, k) == Some(m[0].1));
        } else {
            assert(hm_lookup(m2, q) == hm_lookup(m2.skip(1), q));
            assert(hm_lookup(m, q) == hm_lookup(m.skip(1), q));
        }
    } else {
        lemma_hm_insert_lookup(m.skip(1), k, v, q);
        let m2 = hm_insert(m, k, v);
        assert(m2 == seq![m[0]] + hm_insert(m.skip(1), k, v));
        assert(m2.skip(1) =~= hm_insert(m.skip(1), k, v));
        assert(m2[0] == m[0]);
        assert(hm_lookup(m, k) == hm_lookup(m.skip(1), k));
        if q == m[0].0 {
            assert(hm_lookup(m2, q) == Some(m2[0].1));
            assert(hm_lookup(m, q) == Some(m[0].1));
        } else {
            assert(hm_lookup(m2, q) == hm_lookup(m2.skip(1), q));
            assert(hm_lookup(m, q) == hm_lookup(m.skip(1), q));
        }
    }
}

/// An ordered mapping from lowercase header names to header values.
pub struct HeaderMap {
    entries: Vec<(Vec<u8>, Vec<u8>)>,
}

impl View for HeaderMap {
    type V = Seq<(Seq<u8>, Seq<u8>)>;

    closed spec fn view(&self) -> Seq<(Seq<u8>, Seq<u8>)> {
        self.entries@.map_values(|e: (Vec<u8>, Vec<u8>)| (e.0@, e.1@))
    }
}

impl HeaderMap {
    /// Keys are unique and stored lowercase.
    pub open spec fn wf(&self) -> bool {
        hm_wf(self@)
    }

    pub fn new() -> (r: HeaderMap)
        ensures
            r@ == Seq::<(Seq<u8>, Seq<u8>)>::empty(),
            r.wf(),
    {
        let r = HeaderMap { entries: Vec::new() };
        proof {
            assert(r@ =~= Seq::<(Seq<u8>, Seq<u8>)>::empty());
        }
        r
    }

    pub fn len(&self) -> (r: usize)
        ensures
            r == self@.len(),
    {
        self.entries.len()
    }

    /// Entry at position `i`, in insertion order.
    pub fn entry_at(&self, i: usize) -> (r: &(Vec<u8>, Vec<u8>))
        requires
            i < self@.len(),
        ensures
            (r.0@, r.1@) == self@[i as int],
    {
        &self.entries[i]
    }

    fn find_index(&self, key: &[u8]) -> (r: Option<usize>)
        ensures
            match r {
                Some(i) => i < self@.len() && self@[i as int].0 == key@ && (forall|j: int|
                    0 <= j < i ==> self@[j].0 != key@),
                None => forall|j: int| 0 <= j < self@.len() ==> self@[j].0 != key@,
            },
    {
        let n = self.entries.len();
        let mut i: usize = 0;
        while i < n
            invariant
                n == self@.len(),
                n == self.entries@.len(),
                i <= n,
                forall|j: int| 0 <= j < i ==> self@[j].0 != key@,
            decreases n - i,
        {
            let e = &self.entries[i];
            if bytes_eq(e.0.as_slice(), key) {
                return Some(i);
            }
            i = i + 1;
        }
        None
    }

    /// Insert under an already-lowercase key, combining duplicate keys by
    /// appending the new value after a comma.
    pub fn insert_combining(&mut self, key: Vec<u8>, value: Vec<u8>)
        requires
            old(self).wf(),
            lower_bytes(key@) == key@,
        ensures
            final(self).wf(),
            final(self)@ == hm_insert(old(self)@, key@, value@),
    {
        let idx = self.find_index(key.as_slice());
        match idx {
            Some(i) => {
                proof {
                    lemma_hm_insert_found(self@, key@, value@, i as int);
                }
                let (k0, mut v0) = self.entries.remove(i);
                v0.push(COMMA);
                append_bytes(&mut v0, value.as_slice());
                self.entries.insert(i, (k0, v0));
                proof {
                    assert(self@ =~~= hm_insert(old(self)@, key@, value@));
                }
            },
            None => {
                proof {
                    lemma_hm_insert_notfound(self@, key@, value@);
                }
                self.entries.push((key, value));
                proof {
                    assert(self@ =~~= hm_insert(old(self)@, key@, value@));
                }
            },
        }
    }

    /// Case-insensitive lookup: the key is lowercased before the search.
    pub fn get(&self, key: &[u8]) -> (r: Option<&Vec<u8>>)
        ensures
            match r {
                Some(v) => hm_lookup(self@, lower_bytes(key@)) == Some(v@),
                None => hm_lookup(self@, lower_bytes(key@)) is None,
            },
    {
        let lk = to_lower(key);
        match self.find_index(lk.as_slice()) {
            Some(i) => {
                proof {
                    lemma_hm_lookup_at(self@, lk@, i as int);
                }
                Some(&self.entries[i].1)
            },
            None => {
                proof {
                    lemma_hm_lookup_none(self@, lk@);
                }
                None
            },
        }
    }

    /// Whether the mapping holds the key, compared case-insensitively.
    pub fn contains_key(&self, key: &[u8]) -> (r: bool)
        ensures
            r == (hm_lookup(self@, lower_bytes(key@)) is Some),
    {
        match self.get(key) {
            Some(_) => true,
            None => false,
        }
    }
}

/// Errors of the header-line grammar, and the two signals that end or
/// suspend header parsing.
#[derive(Clone, Copy, Debug, PartialEq, Eq, Structural)]
pub enum HeaderParseError {
    OtherError,
    InvalidHeader,
    HeadersDone,
    NotEnoughBytes,
}

/// Parsed form of one header line: the name up to the first colon is
/// lowercased, everything after the colon is trimmed. `None` when the name
/// is not a valid field-name token.
#[verifier::opaque]
pub open spec fn spec_header_kv(line: Seq<u8>) -> Option<(Seq<u8>, Seq<u8>)> {
    let key_raw = match spec_find_byte(line, COLON) {
        Some(i) => line.take(i),
        None => line,
    };
    let val_raw = match spec_find_byte(line, COLON) {
        Some(i) => line.skip(i + 1),
        None => Seq::<u8>::empty(),
    };
    if is_field_name(key_raw) {
        Some((lower_bytes(key_raw), trim_spec(val_raw)))
    } else {
        None
    }
}

/// Splits one header line at the first colon, validates the field name, and
/// returns the lowercased key with the trimmed value.
pub fn parse_header(line: &[u8]) -> (r: Result<(Vec<u8>, Vec<u8>), HeaderParseError>)
    ensures
        match r {
            Ok(kv) => spec_header_kv(line@) == Some((kv.0@, kv.1@)) && lower_bytes(kv.0@)
                == kv.0@,
            Err(e) => e == HeaderParseError::InvalidHeader && spec_header_kv(line@) is None,
        },
{
    proof {
        reveal(spec_header_kv);
    }
    let n = line.len();
    let (key_raw, val_raw): (&[u8], &[u8]) = match find_byte(line, COLON) {
        Some(i) => (
            vstd::slice::slice_subrange(line, 0, i),
            vstd::slice::slice_subrange(line, i + 1, n),
        ),
        None => (vstd::slice::slice_subrange(line, 0, n), vstd::slice::slice_subrange(line, n, n)),
    };
    proof {
        assert(line@.subrange(0, n as int) =~= line@);
        match spec_find_byte(line@, COLON) {
            Some(i) => {
                assert(line@.subrange(0, i) =~= line@.take(i));
                assert(line@.subrange(i + 1, n as int) =~= line@.skip(i + 1));
            },
            None => {
                assert(line@.subrange(n as int, n as int) =~= Seq::<u8>::empty());
            },
        }
    }
    if !is_valid_field_name(key_raw) {
        return Err(HeaderParseError::InvalidHeader);
    }
    let key = to_lower(key_raw);
    let value = trim_bytes(val_raw);
    proof {
        crate::bytes::lemma_lower_bytes_idempotent(key_raw@);
    }
    Ok((key, value))
}

/// `data` begins with a CRLF pair, the empty line that ends a header block.
pub open spec fn spec_starts_crlf(data: Seq<u8>) -> bool {
    data.len() >= 2 && data[0] == CR && data[1] == LF
}

/// One step of header parsing over `data`, starting from the accumulated
/// mapping `m`: either the empty line is reached, or more bytes are needed,
/// or one line is consumed and folded into the mapping.
pub open spec fn spec_header_step(m: Seq<(Seq<u8>, Seq<u8>)>, data: Seq<u8>) -> Result<
    (Seq<(Seq<u8>, Seq<u8>)>, int),
    HeaderParseError,
> {
    if spec_starts_crlf(data) {
        Err(HeaderParseError::HeadersDone)
    } else {
        match spec_line_end(data) {
            None => Err(HeaderParseError::NotEnoughBytes),
            Some(i) => match spec_header_kv(data.subrange(0, i - 2)) {
                None => Err(HeaderParseError::InvalidHeader),
                Some(kv) => Ok((hm_insert(m, kv.0, kv.1), i)),
            },
        }
    }
}

/// Accumulates primary headers and trailer headers, one CRLF-terminated
/// line per call, under the shared header-line grammar.
pub struct HeaderParser {
    headers: HeaderMap,
    trailer_headers: HeaderMap,
}

impl HeaderParser {
    pub closed spec fn headers_view(&self) -> Seq<(Seq<u8>, Seq<u8>)> {
        self.headers@
    }

    pub closed spec fn trailers_view(&self) -> Seq<(Seq<u8>, Seq<u8>)> {
        self.trailer_headers@
    }

    pub open spec fn wf(&self) -> bool {
        hm_wf(self.headers_view()) && hm_wf(self.trailers_view())
    }

    pub fn new() -> (r: HeaderParser)
        ensures
            r.wf(),
            r.headers_view() == Seq::<(Seq<u8>, Seq<u8>)>::empty(),
            r.trailers_view() == Seq::<(Seq<u8>, Seq<u8>)>::empty(),
    {
        HeaderParser { headers: HeaderMap::new(), trailer_headers: HeaderMap::new() }
    }

    /// Consumes one primary-header line from the front of `data`; returns
    /// how many bytes the line took.
    pub fn parse_header(&mut self, data: &[u8]) -> (r: Result<usize, HeaderParseError>)
        requires
            old(self).wf(),
        ensures
            final(self).wf(),
            final(self).trailers_view() == old(self).trailers_view(),
            match r {
                Ok(i) => 2 <= i <= data@.len() && spec_header_step(
                    old(self).headers_view(),
                    data@,
                ) == Ok::<_, HeaderParseError>((final(self).headers_view(), i as int)),
                Err(e) => spec_header_step(old(self).headers_view(), data@) == Err::<
                    (Seq<(Seq<u8>, Seq<u8>)>, int),
                    _,
                >(e) && final(self).headers_view() == old(self).headers_view(),
            },
    {
        if data.len() >= 2 && data[0] == CR && data[1] == LF {
            return Err(HeaderParseError::HeadersDone);
        }
        let i = match find_field_line_index(data) {
            Some(i) => i,
            None => {
                return Err(HeaderParseError::NotEnoughBytes);
            },
        };
        let line = vstd::slice::slice_subrange(data, 0, i - 2);
        match parse_header(line) {
            Ok((k, v)) => {
                proof {
                    crate::bytes::lemma_lower_bytes_idempotent(k@);
                }
                self.headers.insert_combining(k, v);
                Ok(i)
            },
            Err(e) => Err(e),
        }
    }

    /// Consumes one trailer-header line from the front of `data`.
    pub fn parse_trailer_header(&mut self, data: &[u8]) -> (r: Result<usize, HeaderParseError>)
        requires
            old(self).wf(),
        ensures
            final(self).wf(),
            final(self).headers_view() == old(self).headers_view(),
            match r {
                Ok(i) => 2 <= i <= data@.len() && spec_header_step(
                    old(self).trailers_view(),
                    data@,
                ) == Ok::<_, HeaderParseError>((final(self).trailers_view(), i as int)),
                Err(e) => spec_header_step(old(self).trailers_view(), data@) == Err::<
                    (Seq<(Seq<u8>, Seq<u8>)>, int),
                    _,
                >(e) && final(self).trailers_view() == old(self).trailers_view(),
            },
    {
        if data.len() >= 2 && data[0] == CR && data[1] == LF {
            return Err(HeaderParseError::HeadersDone);
        }
        let i = match find_field_line_index(data) {
            Some(i) => i,
            None => {
                return Err(HeaderParseError::NotEnoughBytes);
            },
        };
        let line = vstd::slice::slice_subrange(data, 0, i - 2);
        match parse_header(line) {
            Ok((k, v)) => {
                proof {
                    crate::bytes::lemma_lower_bytes_idempotent(k@);
                }
                self.trailer_headers.insert_combining(k, v);
                Ok(i)
            },
            Err(e) => Err(e),
        }
    }

    /// Value stored under `key` in the primary headers.
    pub fn header(&self, key: &[u8]) -> (r: Option<&Vec<u8>>)
        ensures
            match r {
                Some(v) => hm_lookup(self.headers_view(), lower_bytes(key@)) == Some(v@),
                None => hm_lookup(self.headers_view(), lower_bytes(key@)) is None,
            },
    {
        self.headers.get(key)
    }

    /// The primary header mapping, by move.
    pub fn get_headers(self) -> (r: HeaderMap)
        ensures
            r@ == self.headers_view(),
    {
        self.headers
    }

    /// The primary header mapping, by reference.
    pub fn get_headers_ref(&self) -> (r: &HeaderMap)
        ensures
            r@ == self.headers_view(),
    {
        &self.headers
    }

    /// The trailer header mapping, by reference.
    pub fn get_trailer_headers_ref(&self) -> (r: &HeaderMap)
        ensures
            r@ == self.trailers_view(),
    {
        &self.trailer_headers
    }
}

/// One header line as it goes on the wire: name, colon, space, value, CRLF.
pub open spec fn render_entry(e: (Seq<u8>, Seq<u8>)) -> Seq<u8> {
    e.0 + seq![COLON, 32u8] + e.1 + seq![CR, LF]
}

/// All header lines of `m`, in order.
pub open spec fn render_entries(m: Seq<(Seq<u8>, Seq<u8>)>) -> Seq<u8>
    decreases m.len(),
{
    if m.len() == 0 {
        Seq::empty()
    } else {
        render_entry(m[0]) + render_entries(m.skip(1))
    }
}

/// A full header block: the lines of `m` and the blank line that ends it.
pub open spec fn render_headers(m: Seq<(Seq<u8>, Seq<u8>)>) -> Seq<u8> {
    render_entries(m) + seq![CR, LF]
}

pub proof fn lemma_render_entries_push(m: Seq<(Seq<u8>, Seq<u8>)>, e: (Seq<u8>, Seq<u8>))
    ensures
        render_entries(m.push(e)) == render_entries(m) + render_entry(e),
    decreases m.len(),
{
    if m.len() == 0 {
        assert(m.push(e)[0] == e);
        assert(m.push(e).skip(1) =~= Seq::<(Seq<u8>, Seq<u8>)>::empty());
        assert(render_entries(Seq::<(Seq<u8>, Seq<u8>)>::empty()) == Seq::<u8>::empty());
        assert(render_entries(m.push(e)) == render_entry(e) + render_entries(
            Seq::<(Seq<u8>, Seq<u8>)>::empty(),
        ));
        assert(render_entry(e) + Seq::<u8>::empty() =~= Seq::<u8>::empty() + render_entry(e));
    } else {
        lemma_render_entries_push(m.skip(1), e);
        assert(m.push(e)[0] == m[0]);
        assert(m.push(e).skip(1) =~= m.skip(1).push(e));
        assert(render_entries(m.push(e)) == render_entry(m[0]) + render_entries(m.skip(1).push(e)));
        assert(render_entry(m[0]) + (render_entries(m.skip(1)) + render_entry(e)) =~= (render_entry(
            m[0],
        ) + render_entries(m.skip(1))) + render_entry(e));
    }
}

/// Appends the rendered header block of `m`, blank line included.
pub fn write_header_block(out: &mut Vec<u8>, m: &HeaderMap)
    ensures
        final(out)@ == old(out)@ + render_headers(m@),
{
    let n = m.len();
    let mut i: usize = 0;
    proof {
        assert(old(out)@ + render_entries(m@.take(0)) =~= old(out)@);
    }
    while i < n
        invariant
            n == m@.len(),
            i <= n,
            out@ == old(out)@ + render_entries(m@.take(i as int)),
        decreases n - i,
    {
        let e = m.entry_at(i);
        append_bytes(out, e.0.as_slice());
        out.push(COLON);
        out.push(32);
        append_bytes(out, e.1.as_slice());
        out.push(CR);
        out.push(LF);
        proof {
            lemma_render_entries_push(m@.take(i as int), m@[i as int]);
            assert(m@.take(i + 1) =~= m@.take(i as int).push(m@[i as int]));
            assert(out@ =~= old(out)@ + render_entries(m@.take(i + 1)));
        }
        i = i + 1;
    }
    out.push(CR);
    out.push(LF);
    proof {
        assert(m@.take(n as int) =~= m@);
        assert(out@ =~= old(out)@ + render_headers(m@));
    }
}

/// How many entries of `m` carry the key `k`.
pub open spec fn hm_count(m: Seq<(Seq<u8>, Seq<u8>)>, k: Seq<u8>) -> int
    decreases m.len(),
{
    if m.len() == 0 {
        0
    } else {
        (if m[0].0 == k {
            1int
        } else {
            0int
        }) + hm_count(m.skip(1), k)
    }
}

pub proof fn lemma_hm_count_push(m: Seq<(Seq<u8>, Seq<u8>)>, e: (Seq<u8>, Seq<u8>), k: Seq<u8>)
    ensures
        hm_count(m.push(e), k) == hm_count(m, k) + (if e.0 == k {
            1int
        } else {
            0int
        }),
    decreases m.len(),
{
    if m.len() == 0 {
        assert(m.push(e)[0] == e);
        assert(m.push(e).skip(1) =~= Seq::<(Seq<u8>, Seq<u8>)>::empty());
        assert(hm_count(Seq::<(Seq<u8>, Seq<u8>)>::empty(), k) == 0);
        assert(hm_count(m.push(e), k) == (if e.0 == k {
            1int
        } else {
            0int
        }) + hm_count(Seq::<(Seq<u8>, Seq<u8>)>::empty(), k));
    } else {
        lemma_hm_count_push(m.skip(1), e, k);
        assert(m.push(e)[0] == m[0]);
        assert(m.push(e).skip(1) =~= m.skip(1).push(e));
        assert(hm_count(m.push(e), k) == (if m[0].0 == k {
            1int
        } else {
            0int
        }) + hm_count(m.skip(1).push(e), k));
    }
}

/// A key that `hm_lookup` misses occurs zero times.
pub proof fn lemma_hm_lookup_none_count_zero(m: Seq<(Seq<u8>, Seq<u8>)>, k: Seq<u8>)
    requires
        hm_lookup(m, k) is None,
    ensures
        hm_count(m, k) == 0,
    decreases m.len(),
{
    if m.len() > 0 {
        lemma_hm_lookup_none_count_zero(m.skip(1), k);
    }
}

/// Mapping built by inserting a header list in arrival order.
pub open spec fn hm_of(entries: Seq<(Seq<u8>, Seq<u8>)>) -> Seq<(Seq<u8>, Seq<u8>)>
    decreases entries.len(),
{
    if entries.len() == 0 {
        Seq::empty()
    } else {
        hm_insert(hm_of(entries.drop_last()), entries.last().0, entries.last().1)
    }
}

/// The values under `k` in a header list, joined by commas in arrival
/// order; `None` when the key never occurs.
pub open spec fn combined_value(entries: Seq<(Seq<u8>, Seq<u8>)>, k: Seq<u8>) -> Option<Seq<u8>>
    decreases entries.len(),
{
    if entries.len() == 0 {
        None
    } else {
        let rest = combined_value(entries.drop_last(), k);
        if entries.last().0 == k {
            match rest {
                None => Some(entries.last().1),
                Some(v0) => Some(v0 + seq![COMMA] + entries.last().1),
            }
        } else {
            rest
        }
    }
}

/// Duplicate keys combine: after inserting any header list in arrival
/// order, the value stored under a key is the comma-join of that key's
/// values, in arrival order.
pub proof fn lemma_duplicate_keys_combine(entries: Seq<(Seq<u8>, Seq<u8>)>, k: Seq<u8>)
    ensures
        hm_lookup(hm_of(entries), k) == combined_value(entries, k),
    decreases entries.len(),
{
    if entries.len() > 0 {
        lemma_duplicate_keys_combine(entries.drop_last(), k);
        lemma_hm_insert_lookup(
            hm_of(entries.drop_last()),
            entries.last().0,
            entries.last().1,
            k,
        );
    }
}

/// Lookups are case-insensitive: two keys with the same lowercase form
/// find the same value, because lookups always query the lowercase form.
pub proof fn lemma_lookup_case_insensitive(m: Seq<(Seq<u8>, Seq<u8>)>, k1: Seq<u8>, k2: Seq<u8>)
    requires
        lower_bytes(k1) == lower_bytes(k2),
    ensures
        hm_lookup(m, lower_bytes(k1)) == hm_lookup(m, lower_bytes(k2)),
{
}

/// In a well-formed mapping every stored key is its own lowercase form.
pub proof fn lemma_stored_keys_lowercase(m: Seq<(Seq<u8>, Seq<u8>)>)
    requires
        hm_wf(m),
    ensures
        forall|i: int| 0 <= i < m.len() ==> lower_bytes(#[trigger] m[i].0) == m[i].0,
{
}

} // verus!
