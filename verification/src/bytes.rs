//! Small executable helpers over byte strings: appending, comparing,
//! ASCII lowercasing, and trimming ASCII whitespace, each tied to a spec
//! function that the parser contracts reuse.
use vstd::prelude::*;

verus! {

/// ASCII lowercase of one byte.
pub open spec fn lower_byte(b: u8) -> u8 {
    if 65 <= b <= 90 {
        (b + 32) as u8
    } else {
        b
    }
}

/// ASCII lowercase of a byte string.
pub open spec fn lower_bytes(s: Seq<u8>) -> Seq<u8> {
    s.map_values(|b: u8| lower_byte(b))
}

/// ASCII whitespace, the bytes that `str::trim` removes from ASCII text.
pub open spec fn is_ws(b: u8) -> bool {
    b == 32 || b == 9 || b == 10 || b == 11 || b == 12 || b == 13
}

/// `s` with leading ASCII whitespace removed.
pub open spec fn trim_start_spec(s: Seq<u8>) -> Seq<u8>
    decreases s.len(),
{
    if s.len() > 0 && is_ws(s[0]) {
        trim_start_spec(s.skip(1))
    } else {
        s
    }
}

/// `s` with trailing ASCII whitespace removed.
pub open spec fn trim_end_spec(s: Seq<u8>) -> Seq<u8>
    decreases s.len(),
{
    if s.len() > 0 && is_ws(s[s.len() - 1]) {
        trim_end_spec(s.take(s.len() - 1))
    } else {
        s
    }
}

/// `s` with ASCII whitespace removed from both ends.
pub open spec fn trim_spec(s: Seq<u8>) -> Seq<u8> {
    trim_end_spec(trim_start_spec(s))
}

/// Lowercasing twice is the same as lowercasing once, so a key produced by
/// `lower_bytes` may be inserted where a lowercase key is required.
pub proof fn lemma_lower_bytes_idempotent(s: Seq<u8>)
    ensures
        lower_bytes(lower_bytes(s)) == lower_bytes(s),
{
    assert(lower_bytes(lower_bytes(s)) =~= lower_bytes(s));
}

/// Appends `src` to `dst`.
pub fn append_bytes(dst: &mut Vec<u8>, src: &[u8])
    ensures
        final(dst)@ == old(dst)@ + src@,
{
    let n = src.len();
    let mut j: usize = 0;
    proof {
        assert(old(dst)@ + src@.take(0) =~= old(dst)@);
    }
    while j < n
        invariant
            n == src@.len(),
            j <= n,
            dst@ == old(dst)@ + src@.take(j as int),
        decreases n - j,
    {
        dst.push(src[j]);
        proof {
            assert(old(dst)@ + src@.take(j + 1) =~= (old(dst)@ + src@.take(j as int)).push(
                src@[j as int],
            ));
        }
        j = j + 1;
    }
    proof {
        assert(src@.take(n as int) =~= src@);
    }
}

/// Exact byte-string equality.
pub fn bytes_eq(a: &[u8], b: &[u8]) -> (r: bool)
    ensures
        r == (a@ == b@),
{
    let n = a.len();
    if n != b.len() {
        proof {
            assert(a@ != b@);
        }
        return false;
    }
    let mut j: usize = 0;
    while j < n
        invariant
            n == a@.len() == b@.len(),
            j <= n,
            forall|k: int| 0 <= k < j ==> a@[k] == b@[k],
        decreases n - j,
    {
        if a[j] != b[j] {
            proof {
                assert(a@ != b@);
            }
            return false;
        }
        j = j + 1;
    }
    proof {
        assert(a@ =~= b@);
    }
    true
}

/// ASCII lowercase of a byte string.
pub fn to_lower(v: &[u8]) -> (r: Vec<u8>)
    ensures
        r@ == lower_bytes(v@),
{
    let n = v.len();
    let mut r: Vec<u8> = Vec::new();
    let mut j: usize = 0;
    while j < n
        invariant
            n == v@.len(),
            j <= n,
            r@.len() == j,
            forall|k: int| 0 <= k < j ==> r@[k] == lower_byte(v@[k]),
        decreases n - j,
    {
        let b = v[j];
        if 65 <= b && b <= 90 {
            r.push(b + 32);
        } else {
            r.push(b);
        }
        j = j + 1;
    }
    proof {
        assert(r@ =~= lower_bytes(v@));
    }
    r
}

proof fn lemma_trim_start_at(s: Seq<u8>, a: int)
    requires
        0 <= a <= s.len(),
        forall|k: int| 0 <= k < a ==> is_ws(s[k]),
        a < s.len() ==> !is_ws(s[a]),
    ensures
        trim_start_spec(s) == s.skip(a),
    decreases a,
{
    if a == 0 {
        assert(s.skip(0) =~= s);
    } else {
        assert(is_ws(s[0]));
        lemma_trim_start_at(s.skip(1), a - 1);
        assert(s.skip(1).skip(a - 1) =~= s.skip(a));
    }
}

proof fn lemma_trim_end_at(s: Seq<u8>, b: int)
    requires
        0 <= b <= s.len(),
        forall|k: int| b <= k < s.len() ==> is_ws(s[k]),
        b > 0 ==> !is_ws(s[b - 1]),
    ensures
        trim_end_spec(s) == s.take(b),
    decreases s.len() - b,
{
    if b == s.len() {
        assert(s.take(b) =~= s);
    } else {
        assert(is_ws(s[s.len() - 1]));
        lemma_trim_end_at(s.take(s.len() - 1), b);
        assert(s.take(s.len() - 1).take(b) =~= s.take(b));
    }
}

fn ws_at(v: &[u8], i: usize) -> (r: bool)
    requires
        i < v@.len(),
    ensures
        r == is_ws(v@[i as int]),
{
    let b = v[i];
    b == 32 || b == 9 || b == 10 || b == 11 || b == 12 || b == 13
}

/// Copy of `v` with ASCII whitespace trimmed from both ends.
pub fn trim_bytes(v: &[u8]) -> (r: Vec<u8>)
    ensures
        r@ == trim_spec(v@),
{
    let n = v.len();
    let mut a: usize = 0;
    while a < n && ws_at(v, a)
        invariant
            n == v@.len(),
            a <= n,
            forall|k: int| 0 <= k < a ==> is_ws(v@[k]),
        decreases n - a,
    {
        a = a + 1;
    }
    let mut b: usize = n;
    while b > a && ws_at(v, b - 1)
        invariant
            n == v@.len(),
            a <= b <= n,
            forall|k: int| 0 <= k < a ==> is_ws(v@[k]),
            a < n ==> !is_ws(v@[a as int]),
            forall|k: int| b <= k < n ==> is_ws(v@[k]),
        decreases b,
    {
        b = b - 1;
    }
    proof {
        lemma_trim_start_at(v@, a as int);
        if b > a {
            lemma_trim_end_at(v@.skip(a as int), b - a);
        } else {
            assert(b == a);
            lemma_trim_end_at(v@.skip(a as int), 0);
        }
        assert(v@.skip(a as int).take(b - a) =~= v@.subrange(a as int, b as int));
    }
    vstd::slice::slice_to_vec(vstd::slice::slice_subrange(v, a, b))
}

/// Byte of one decimal digit.
pub open spec fn dec_digit(d: int) -> u8 {
    (d + 48) as u8
}

/// Byte of one uppercase hexadecimal digit.
pub open spec fn hex_digit_upper(d: int) -> u8 {
    if d < 10 {
        (d + 48) as u8
    } else {
        (d + 55) as u8
    }
}

/// Decimal digit string of a nonnegative number, most significant first.
pub open spec fn spec_dec_digits(n: int) -> Seq<u8>
    decreases n,
{
    if n < 10 {
        seq![dec_digit(n)]
    } else {
        spec_dec_digits(n / 10) + seq![dec_digit(n % 10)]
    }
}

/// Uppercase hexadecimal digit string of a nonnegative number.
pub open spec fn spec_hex_digits_upper(n: int) -> Seq<u8>
    decreases n,
{
    if n < 16 {
        seq![hex_digit_upper(n)]
    } else {
        spec_hex_digits_upper(n / 16) + seq![hex_digit_upper(n % 16)]
    }
}

/// Renders a machine word in decimal.
pub fn dec_bytes(n: usize) -> (r: Vec<u8>)
    ensures
        r@ == spec_dec_digits(n as int),
{
    let mut out: Vec<u8> = Vec::new();
    if n < 10 {
        out.push((n as u8) + 48);
        proof {
            assert(out@ =~= spec_dec_digits(n as int));
        }
        return out;
    }
    let mut m: usize = n;
    while m > 0
        invariant
            m >= 0,
            (m > 0 ==> spec_dec_digits(n as int) == spec_dec_digits(m as int) + out@),
            (m == 0 ==> spec_dec_digits(n as int) == out@),
        decreases m,
    {
        let d = (m % 10) as u8;
        let m2 = m / 10;
        proof {
            assert(d + 48 == dec_digit(m as int % 10));
            if m2 > 0 {
                assert(spec_dec_digits(m as int) == spec_dec_digits(m as int / 10) + seq![
                    dec_digit(m as int % 10),
                ]);
                assert(spec_dec_digits(m as int) + out@ =~= spec_dec_digits(m2 as int) + (seq![
                    (d + 48) as u8,
                ] + out@));
            } else {
                assert(m < 10);
                assert(spec_dec_digits(m as int) == seq![dec_digit(m as int)]);
                assert(spec_dec_digits(m as int) + out@ =~= seq![(d + 48) as u8] + out@);
            }
            assert(out@.insert(0, (d + 48) as u8) =~= seq![(d + 48) as u8] + out@);
        }
        out.insert(0, d + 48);
        m = m2;
    }
    out
}

/// Renders a machine word in uppercase hexadecimal.
pub fn hex_bytes_upper(n: usize) -> (r: Vec<u8>)
    ensures
        r@ == spec_hex_digits_upper(n as int),
{
    let mut out: Vec<u8> = Vec::new();
    if n < 16 {
        let nd = n as u8;
        let d = if nd < 10 {
            nd + 48
        } else {
            nd + 55
        };
        out.push(d);
        proof {
            assert(out@ =~= spec_hex_digits_upper(n as int));
        }
        return out;
    }
    let mut m: usize = n;
    while m > 0
        invariant
            m >= 0,
            (m > 0 ==> spec_hex_digits_upper(n as int) == spec_hex_digits_upper(m as int) + out@),
            (m == 0 ==> spec_hex_digits_upper(n as int) == out@),
        decreases m,
    {
        let dm = (m % 16) as u8;
        let d = if dm < 10 {
            dm + 48
        } else {
            dm + 55
        };
        let m2 = m / 16;
        proof {
            assert(d == hex_digit_upper(m as int % 16));
            if m2 > 0 {
                assert(spec_hex_digits_upper(m as int) == spec_hex_digits_upper(m as int / 16)
                    + seq![hex_digit_upper(m as int % 16)]);
                assert(spec_hex_digits_upper(m as int) + out@ =~= spec_hex_digits_upper(m2 as int)
                    + (seq![d] + out@));
            } else {
                assert(m < 16);
                assert(spec_hex_digits_upper(m as int) == seq![hex_digit_upper(m as int)]);
                assert(spec_hex_digits_upper(m as int) + out@ =~= seq![d] + out@);
            }
            assert(out@.insert(0, d) =~= seq![d] + out@);
        }
        out.insert(0, d);
        m = m2;
    }
    out
}

/// How many times `x` occurs in `s`.
pub open spec fn count_byte(s: Seq<u8>, x: u8) -> int
    decreases s.len(),
{
    if s.len() == 0 {
        0
    } else {
        (if s[0] == x {
            1int
        } else {
            0int
        }) + count_byte(s.skip(1), x)
    }
}

proof fn lemma_count_byte_push(s: Seq<u8>, b: u8, x: u8)
    ensures
        count_byte(s.push(b), x) == count_byte(s, x) + (if b == x {
            1int
        } else {
            0int
        }),
    decreases s.len(),
{
    if s.len() == 0 {
        assert(s.push(b)[0] == b);
        assert(s.push(b).skip(1) =~= Seq::<u8>::empty());
        assert(count_byte(Seq::<u8>::empty(), x) == 0);
        assert(count_byte(s.push(b), x) == (if b == x {
            1int
        } else {
            0int
        }) + count_byte(Seq::<u8>::empty(), x));
    } else {
        lemma_count_byte_push(s.skip(1), b, x);
        assert(s.push(b)[0] == s[0]);
        assert(s.push(b).skip(1) =~= s.skip(1).push(b));
        assert(count_byte(s.push(b), x) == (if s[0] == x {
            1int
        } else {
            0int
        }) + count_byte(s.skip(1).push(b), x));
    }
}

/// Counts the occurrences of `x` in `v`.
pub fn count_byte_occurrences(v: &[u8], x: u8) -> (r: usize)
    ensures
        r as int == count_byte(v@, x),
{
    let n = v.len();
    let mut r: usize = 0;
    let mut j: usize = 0;
    proof {
        assert(v@.take(0) =~= Seq::<u8>::empty());
    }
    while j < n
        invariant
            n == v@.len(),
            j <= n,
            r <= j,
            r as int == count_byte(v@.take(j as int), x),
        decreases n - j,
    {
        proof {
            lemma_count_byte_push(v@.take(j as int), v@[j as int], x);
            assert(v@.take(j + 1) =~= v@.take(j as int).push(v@[j as int]));
        }
        if v[j] == x {
            r = r + 1;
        }
        j = j + 1;
    }
    proof {
        assert(v@.take(n as int) =~= v@);
    }
    r
}

} // verus!
