//! Byte-level scanning over HTTP message buffers: locating the CRLF line
//! terminator, the CRLF CRLF separator between the header block and the body,
//! and validating header field names against the RFC 7230 `tchar` set.
use vstd::prelude::*;

verus! {

pub const CR: u8 = 13;
pub const LF: u8 = 10;

/// A CRLF pair starts at index `i` of `s`.
pub open spec fn is_crlf_at(s: Seq<u8>, i: int) -> bool {
    0 <= i && i + 2 <= s.len() && s[i] == CR && s[i + 1] == LF
}

/// No CRLF pair starts at any index below `n`.
pub open spec fn no_crlf_before(s: Seq<u8>, n: int) -> bool {
    forall|j: int| 0 <= j < n ==> !is_crlf_at(s, j)
}

/// A CRLF CRLF separator starts at index `i` of `s`.
pub open spec fn is_double_crlf_at(s: Seq<u8>, i: int) -> bool {
    0 <= i && i + 4 <= s.len() && s[i] == CR && s[i + 1] == LF && s[i + 2] == CR && s[i + 3] == LF
}

/// No CRLF CRLF separator starts at any index below `n`.
pub open spec fn no_double_crlf_before(s: Seq<u8>, n: int) -> bool {
    forall|j: int| 0 <= j < n ==> !is_double_crlf_at(s, j)
}

/// Index just past the first CRLF of `s`, if any.
pub open spec fn spec_line_end(s: Seq<u8>) -> Option<int> {
    if exists|j: int| is_crlf_at(s, j) {
        let j = choose|j: int| is_crlf_at(s, j) && no_crlf_before(s, j);
        Some(j + 2)
    } else {
        None
    }
}

/// Index just past the first CRLF CRLF of `s`, if any.
pub open spec fn spec_head_end(s: Seq<u8>) -> Option<int> {
    if exists|j: int| is_double_crlf_at(s, j) {
        let j = choose|j: int| is_double_crlf_at(s, j) && no_double_crlf_before(s, j);
        Some(j + 4)
    } else {
        None
    }
}

pub proof fn lemma_line_end_at(s: Seq<u8>, j: int)
    requires
        is_crlf_at(s, j),
        no_crlf_before(s, j),
    ensures
        spec_line_end(s) == Some(j + 2),
{
    assert(is_crlf_at(s, j) && no_crlf_before(s, j));
    let w = choose|w: int| is_crlf_at(s, w) && no_crlf_before(s, w);
    if w < j {
        assert(!is_crlf_at(s, w));
    } else if w > j {
        assert(!is_crlf_at(s, j));
    }
}

proof fn lemma_first_crlf_below(s: Seq<u8>, w: int)
    requires
        is_crlf_at(s, w),
    ensures
        exists|j: int| is_crlf_at(s, j) && no_crlf_before(s, j),
    decreases w,
{
    if no_crlf_before(s, w) {
        assert(is_crlf_at(s, w) && no_crlf_before(s, w));
    } else {
        let w2 = choose|j: int| 0 <= j < w && is_crlf_at(s, j);
        lemma_first_crlf_below(s, w2);
    }
}

/// What a `Some` result of `spec_line_end` means for the bytes.
pub proof fn lemma_line_end_props(s: Seq<u8>, i: int)
    requires
        spec_line_end(s) == Some(i),
    ensures
        2 <= i <= s.len(),
        is_crlf_at(s, i - 2),
        no_crlf_before(s, i - 2),
{
    let w = choose|j: int| is_crlf_at(s, j);
    lemma_first_crlf_below(s, w);
    let j0 = choose|j: int| is_crlf_at(s, j) && no_crlf_before(s, j);
    assert(is_crlf_at(s, j0) && no_crlf_before(s, j0));
}

pub proof fn lemma_no_line_end(s: Seq<u8>)
    requires
        no_crlf_before(s, s.len() as int),
    ensures
        spec_line_end(s) is None,
{
    if exists|j: int| is_crlf_at(s, j) {
        let w = choose|w: int| is_crlf_at(s, w);
        assert(!is_crlf_at(s, w));
    }
}

pub proof fn lemma_head_end_at(s: Seq<u8>, j: int)
    requires
        is_double_crlf_at(s, j),
        no_double_crlf_before(s, j),
    ensures
        spec_head_end(s) == Some(j + 4),
{
    assert(is_double_crlf_at(s, j) && no_double_crlf_before(s, j));
    let w = choose|w: int| is_double_crlf_at(s, w) && no_double_crlf_before(s, w);
    if w < j {
        assert(!is_double_crlf_at(s, w));
    } else if w > j {
        assert(!is_double_crlf_at(s, j));
    }
}

proof fn lemma_first_double_crlf_below(s: Seq<u8>, w: int)
    requires
        is_double_crlf_at(s, w),
    ensures
        exists|j: int| is_double_crlf_at(s, j) && no_double_crlf_before(s, j),
    decreases w,
{
    if no_double_crlf_before(s, w) {
        assert(is_double_crlf_at(s, w) && no_double_crlf_before(s, w));
    } else {
        let w2 = choose|j: int| 0 <= j < w && is_double_crlf_at(s, j);
        lemma_first_double_crlf_below(s, w2);
    }
}

/// What a `Some` result of `spec_head_end` means for the bytes.
pub proof fn lemma_head_end_props(s: Seq<u8>, i: int)
    requires
        spec_head_end(s) == Some(i),
    ensures
        4 <= i <= s.len(),
        is_double_crlf_at(s, i - 4),
        no_double_crlf_before(s, i - 4),
{
    let w = choose|j: int| is_double_crlf_at(s, j);
    lemma_first_double_crlf_below(s, w);
    let j0 = choose|j: int| is_double_crlf_at(s, j) && no_double_crlf_before(s, j);
    assert(is_double_crlf_at(s, j0) && no_double_crlf_before(s, j0));
}

pub proof fn lemma_no_head_end(s: Seq<u8>)
    requires
        no_double_crlf_before(s, s.len() as int),
    ensures
        spec_head_end(s) is None,
{
    if exists|j: int| is_double_crlf_at(s, j) {
        let w = choose|w: int| is_double_crlf_at(s, w);
        assert(!is_double_crlf_at(s, w));
    }
}

/// Index just past the next CRLF in `buffer`, or `None` when no complete
/// CRLF pair is present yet.
pub fn find_field_line_index(buffer: &[u8]) -> (r: Option<usize>)
    ensures
        match r {
            Some(i) => 2 <= i <= buffer@.len() && is_crlf_at(buffer@, i - 2) && no_crlf_before(
                buffer@,
                i - 2,
            ) && spec_line_end(buffer@) == Some(i as int),
            None => no_crlf_before(buffer@, buffer@.len() as int) && spec_line_end(buffer@)
                is None,
        },
{
    let n = buffer.len();
    if n < 2 {
        proof {
            lemma_no_line_end(buffer@);
        }
        return None;
    }
    let mut j: usize = 0;
    while j <= n - 2
        invariant
            n == buffer@.len(),
            2 <= n,
            j <= n,
            no_crlf_before(buffer@, j as int),
        decreases n - j,
    {
        if buffer[j] == CR && buffer[j + 1] == LF {
            proof {
                lemma_line_end_at(buffer@, j as int);
            }
            return Some(j + 2);
        }
        j = j + 1;
    }
    proof {
        lemma_no_line_end(buffer@);
    }
    None
}

/// Index just past the first CRLF CRLF separator in `buffer`, or `None` when
/// the header block is not yet complete.
pub fn find_payload_index(buffer: &[u8]) -> (r: Option<usize>)
    ensures
        match r {
            Some(i) => 4 <= i <= buffer@.len() && is_double_crlf_at(buffer@, i - 4)
                && no_double_crlf_before(buffer@, i - 4) && spec_head_end(buffer@) == Some(
                i as int,
            ),
            None => no_double_crlf_before(buffer@, buffer@.len() as int) && spec_head_end(buffer@)
                is None,
        },
{
    let n = buffer.len();
    if n < 4 {
        proof {
            lemma_no_head_end(buffer@);
        }
        return None;
    }
    let mut j: usize = 0;
    while j <= n - 4
        invariant
            n == buffer@.len(),
            4 <= n,
            j <= n,
            no_double_crlf_before(buffer@, j as int),
        decreases n - j,
    {
        if buffer[j] == CR && buffer[j + 1] == LF && buffer[j + 2] == CR && buffer[j + 3] == LF {
            proof {
                lemma_head_end_at(buffer@, j as int);
            }
            return Some(j + 4);
        }
        j = j + 1;
    }
    proof {
        lemma_no_head_end(buffer@);
    }
    None
}

/// The recoverable signal of the front scan: the separator has not
/// arrived yet.
pub struct NotEnoughBytes;

/// The front scan as the message parser first uses it: the index just
/// past the header block, or the signal to read more.
pub fn parse_front(data: &[u8]) -> (r: Result<usize, NotEnoughBytes>)
    ensures
        match r {
            Ok(i) => spec_head_end(data@) == Some(i as int),
            Err(_) => spec_head_end(data@) is None,
        },
{
    match find_payload_index(data) {
        Some(i) => Ok(i),
        None => Err(NotEnoughBytes),
    }
}

/// First index at which `x` occurs in `s`, if any.
pub open spec fn spec_find_byte(s: Seq<u8>, x: u8) -> Option<int> {
    if exists|j: int| 0 <= j < s.len() && s[j] == x {
        let j = choose|j: int|
            0 <= j < s.len() && s[j] == x && (forall|k: int| 0 <= k < j ==> s[k] != x);
        Some(j)
    } else {
        None
    }
}

pub proof fn lemma_find_byte_at(s: Seq<u8>, x: u8, j: int)
    requires
        0 <= j < s.len(),
        s[j] == x,
        forall|k: int| 0 <= k < j ==> s[k] != x,
    ensures
        spec_find_byte(s, x) == Some(j),
{
    assert(0 <= j < s.len() && s[j] == x && (forall|k: int| 0 <= k < j ==> s[k] != x));
    let w = choose|w: int|
        0 <= w < s.len() && s[w] == x && (forall|k: int| 0 <= k < w ==> s[k] != x);
    if w < j {
        assert(s[w] != x);
    } else if w > j {
        assert(s[j] != x);
    }
}

pub proof fn lemma_find_byte_none(s: Seq<u8>, x: u8)
    requires
        forall|k: int| 0 <= k < s.len() ==> s[k] != x,
    ensures
        spec_find_byte(s, x) is None,
{
}

/// First index of `x` in `data`, or `None`.
pub fn find_byte(data: &[u8], x: u8) -> (r: Option<usize>)
    ensures
        match r {
            Some(i) => i < data@.len() && data@[i as int] == x && (forall|k: int|
                0 <= k < i ==> data@[k] != x) && spec_find_byte(data@, x) == Some(i as int),
            None => (forall|k: int| 0 <= k < data@.len() ==> data@[k] != x) && spec_find_byte(
                data@,
                x,
            ) is None,
        },
{
    let n = data.len();
    let mut j: usize = 0;
    while j < n
        invariant
            n == data@.len(),
            j <= n,
            forall|k: int| 0 <= k < j ==> data@[k] != x,
        decreases n - j,
    {
        if data[j] == x {
            proof {
                lemma_find_byte_at(data@, x, j as int);
            }
            return Some(j);
        }
        j = j + 1;
    }
    proof {
        lemma_find_byte_none(data@, x);
    }
    None
}

/// RFC 7230 `tchar`: the bytes permitted in a header field name.
pub open spec fn is_tchar(b: u8) -> bool {
    (48 <= b <= 57)  // 0-9
    || (65 <= b <= 90)  // A-Z
    || (97 <= b <= 122)  // a-z
    || b == 33  // !
    || b == 35  // #
    || b == 36  // $
    || b == 37  // %
    || b == 38  // &
    || b == 39  // '
    || b == 42  // *
    || b == 43  // +
    || b == 45  // -
    || b == 46  // .
    || b == 94  // ^
    || b == 95  // _
    || b == 96  // `
    || b == 124  // |
    || b == 126  // ~
}

/// All bytes of `s` are `tchar`s and there is at least one of them.
pub open spec fn is_field_name(s: Seq<u8>) -> bool {
    s.len() > 0 && forall|j: int| 0 <= j < s.len() ==> is_tchar(s[j])
}

fn tchar(b: u8) -> (r: bool)
    ensures
        r == is_tchar(b),
{
    (48 <= b && b <= 57) || (65 <= b && b <= 90) || (97 <= b && b <= 122) || b == 33 || b == 35
        || b == 36 || b == 37 || b == 38 || b == 39 || b == 42 || b == 43 || b == 45 || b == 46
        || b == 94 || b == 95 || b == 96 || b == 124 || b == 126
}

/// Whether `s` is a non-empty run of RFC 7230 `tchar` bytes.
pub fn is_valid_field_name(s: &[u8]) -> (r: bool)
    ensures
        r == is_field_name(s@),
{
    let n = s.len();
    if n == 0 {
        return false;
    }
    let mut j: usize = 0;
    while j < n
        invariant
            n == s@.len(),
            j <= n,
            forall|k: int| 0 <= k < j ==> is_tchar(s@[k]),
        decreases n - j,
    {
        if !tchar(s[j]) {
            return false;
        }
        j = j + 1;
    }
    true
}

} // verus!
