//! Byte-string primitives: whitespace trimming, prefix/suffix tests,
//! case-insensitive comparison and decimal formatting.
//!
//! The line classifier works on raw bytes, so all of these operate on
//! `&[u8]` and are specified over `Seq<u8>`.

use vstd::prelude::*;

verus! {

/// Whether `b` is an ASCII whitespace byte (the single-byte cases of
/// `char::is_whitespace`): tab, line feed, vertical tab, form feed,
/// carriage return or space.
pub open spec fn is_space_byte(b: u8) -> bool {
    b == 9 || b == 10 || b == 11 || b == 12 || b == 13 || b == 32
}

fn is_space(b: u8) -> (r: bool)
    ensures
        r == is_space_byte(b),
{
    b == 9 || b == 10 || b == 11 || b == 12 || b == 13 || b == 32
}

/// `s` with its leading whitespace bytes removed.
pub open spec fn trim_start_spec(s: Seq<u8>) -> Seq<u8>
    decreases s.len(),
{
    if s.len() > 0 && is_space_byte(s[0]) {
        trim_start_spec(s.skip(1))
    } else {
        s
    }
}

/// `s` with its trailing whitespace bytes removed.
pub open spec fn trim_end_spec(s: Seq<u8>) -> Seq<u8>
    decreases s.len(),
{
    if s.len() > 0 && is_space_byte(s.last()) {
        trim_end_spec(s.drop_last())
    } else {
        s
    }
}

/// `s` with whitespace removed from both ends.
pub open spec fn trim_spec(s: Seq<u8>) -> Seq<u8> {
    trim_end_spec(trim_start_spec(s))
}

/// Returns the subslice of `s` with leading and trailing ASCII whitespace
/// removed, the byte-level analogue of `str::trim`.
pub fn trim(s: &[u8]) -> (r: &[u8])
    ensures
        r@ == trim_spec(s@),
{
    let len: usize = s.len();
    let mut lo: usize = 0;
    proof {
        assert(s@.skip(0) =~= s@);
    }
    while lo < len && is_space(s[lo])
        invariant
            0 <= lo <= len,
            len == s@.len(),
            trim_start_spec(s@) == trim_start_spec(s@.skip(lo as int)),
        decreases len - lo,
    {
        proof {
            assert(s@.skip(lo as int)[0] == s@[lo as int]);
            assert(s@.skip(lo as int).skip(1) =~= s@.skip(lo as int + 1));
        }
        lo = lo + 1;
    }
    proof {
        if lo < len {
            assert(s@.skip(lo as int)[0] == s@[lo as int]);
        }
        assert(trim_start_spec(s@) == s@.skip(lo as int));
    }
    let ghost t = s@.skip(lo as int);
    let mut hi: usize = len;
    proof {
        assert(t.take(len - lo as int) =~= t);
    }
    while hi > lo && is_space(s[hi - 1])
        invariant
            0 <= lo <= hi <= len,
            len == s@.len(),
            t == s@.skip(lo as int),
            trim_end_spec(t) == trim_end_spec(t.take(hi - lo as int)),
        decreases hi,
    {
        proof {
            let k = hi - lo as int;
            assert(t.take(k).last() == s@[hi - 1]);
            assert(t.take(k).drop_last() =~= t.take(k - 1));
        }
        hi = hi - 1;
    }
    proof {
        let k = hi - lo as int;
        if hi > lo {
            assert(t.take(k).last() == s@[hi - 1]);
        }
        assert(trim_end_spec(t) == t.take(k));
        assert(s@.subrange(lo as int, hi as int) =~= t.take(k));
    }
    &s[lo..hi]
}

/// Whether `p` is a prefix of `s`, the byte-level `str::starts_with`.
pub fn starts_with(s: &[u8], p: &[u8]) -> (r: bool)
    ensures
        r == p@.is_prefix_of(s@),
{
    if p.len() > s.len() {
        return false;
    }
    let n: usize = p.len();
    let mut i: usize = 0;
    while i < n
        invariant
            0 <= i <= n,
            n == p@.len(),
            n <= s@.len(),
            forall|j: int| 0 <= j < i ==> p@[j] == s@[j],
        decreases n - i,
    {
        if p[i] != s[i] {
            assert(p@[i as int] != s@.subrange(0, n as int)[i as int]);
            return false;
        }
        i = i + 1;
    }
    assert(p@ =~= s@.subrange(0, n as int));
    true
}

/// Whether `p` is a suffix of `s`, the byte-level `str::ends_with`.
pub fn ends_with(s: &[u8], p: &[u8]) -> (r: bool)
    ensures
        r == p@.is_suffix_of(s@),
{
    if p.len() > s.len() {
        return false;
    }
    let n: usize = p.len();
    let slen: usize = s.len();
    let off: usize = slen - n;
    let mut i: usize = 0;
    while i < n
        invariant
            0 <= i <= n,
            n == p@.len(),
            slen == s@.len(),
            off + n == slen,
            forall|j: int| 0 <= j < i ==> p@[j] == s@[off + j],
        decreases n - i,
    {
        if p[i] != s[off + i] {
            assert(p@[i as int] != s@.subrange(off as int, s@.len() as int)[i as int]);
            return false;
        }
        i = i + 1;
    }
    assert(p@ =~= s@.subrange(off as int, s@.len() as int));
    true
}

/// Whether two byte strings are equal.
pub fn bytes_eq(a: &[u8], b: &[u8]) -> (r: bool)
    ensures
        r == (a@ == b@),
{
    if a.len() != b.len() {
        assert(a@.len() != b@.len());
        return false;
    }
    let n: usize = a.len();
    let mut i: usize = 0;
    while i < n
        invariant
            0 <= i <= n,
            n == a@.len(),
            n == b@.len(),
            forall|j: int| 0 <= j < i ==> a@[j] == b@[j],
        decreases n - i,
    {
        if a[i] != b[i] {
            return false;
        }
        i = i + 1;
    }
    assert(a@ =~= b@);
    true
}

/// The ASCII lower-case image of `b`: letters `A`..`Z` are shifted to
/// `a`..`z`, every other byte is unchanged.
pub open spec fn lower_byte(b: u8) -> u8 {
    if 65 <= b && b <= 90 {
        (b + 32) as u8
    } else {
        b
    }
}

/// Whether `a`, lower-cased byte for byte, equals `b` exactly.
pub fn lower_eq(a: &[u8], b: &[u8]) -> (r: bool)
    ensures
        r == (a@.map_values(|x: u8| lower_byte(x)) == b@),
{
    if a.len() != b.len() {
        assert(a@.map_values(|x: u8| lower_byte(x)).len() != b@.len());
        return false;
    }
    let n: usize = a.len();
    let mut i: usize = 0;
    while i < n
        invariant
            0 <= i <= n,
            n == a@.len(),
            n == b@.len(),
            forall|j: int| 0 <= j < i ==> lower_byte(a@[j]) == b@[j],
        decreases n - i,
    {
        let c: u8 = a[i];
        let low: u8 = if 65 <= c && c <= 90 {
            c + 32
        } else {
            c
        };
        if low != b[i] {
            assert(a@.map_values(|x: u8| lower_byte(x))[i as int] != b@[i as int]);
            return false;
        }
        i = i + 1;
    }
    assert(a@.map_values(|x: u8| lower_byte(x)) =~= b@);
    true
}

/// The decimal digits of `n`, most significant first, as ASCII bytes.
pub open spec fn dec_bytes(n: int) -> Seq<u8>
    recommends
        n >= 0,
    decreases n,
{
    if n < 10 {
        seq![(n + 48) as u8]
    } else {
        dec_bytes(n / 10).push((n % 10 + 48) as u8)
    }
}

/// The decimal digits of `n` as characters, most significant first.
pub open spec fn dec_chars(n: int) -> Seq<char> {
    dec_bytes(n).map_values(|b: u8| b as char)
}

/// Every byte of a decimal rendering is an ASCII digit.
proof fn lemma_dec_bytes_ascii(n: int)
    requires
        n >= 0,
    ensures
        forall|i: int|
            0 <= i < dec_bytes(n).len() ==> 48 <= #[trigger] dec_bytes(n)[i] && dec_bytes(n)[i]
                <= 57,
    decreases n,
{
    if n < 10 {
        assert(dec_bytes(n)[0] == (n + 48) as u8);
    } else {
        lemma_dec_bytes_ascii(n / 10);
        assert forall|i: int| 0 <= i < dec_bytes(n).len() implies 48 <= #[trigger] dec_bytes(
            n,
        )[i] && dec_bytes(n)[i] <= 57 by {
            if i < dec_bytes(n).len() - 1 {
                assert(dec_bytes(n)[i] == dec_bytes(n / 10)[i]);
            } else {
                assert(dec_bytes(n)[i] == (n % 10 + 48) as u8);
            }
        }
    }
}

/// The decimal digits of `n`, most significant first, as a byte vector.
pub fn u64_dec_bytes(n: u64) -> (r: Vec<u8>)
    ensures
        r@ == dec_bytes(n as int),
    decreases n,
{
    if n < 10 {
        let d: u8 = (n as u8) + 48;
        let mut v: Vec<u8> = Vec::new();
        v.push(d);
        assert(v@ =~= dec_bytes(n as int));
        v
    } else {
        let mut v = u64_dec_bytes(n / 10);
        let d: u8 = ((n % 10) as u8) + 48;
        v.push(d);
        v
    }
}

/// Relies on `String::from_utf8`: a sequence of bytes below 128 is valid
/// UTF-8 and decodes to one character per byte, each equal to the byte.
#[verifier::external_body]
fn ascii_string(bytes: Vec<u8>) -> (r: String)
    requires
        forall|i: int| 0 <= i < bytes@.len() ==> bytes@[i] < 128,
    ensures
        r@.len() == bytes@.len(),
        forall|i: int| 0 <= i < bytes@.len() ==> r@[i] == bytes@[i] as char,
{
    String::from_utf8(bytes).unwrap_or_default()
}

/// Renders `n` in decimal, most significant digit first.
pub fn u64_string(n: u64) -> (r: String)
    ensures
        r@ == dec_chars(n as int),
{
    let digits = u64_dec_bytes(n);
    proof {
        lemma_dec_bytes_ascii(n as int);
    }
    let r = ascii_string(digits);
    proof {
        assert(r@ =~= dec_chars(n as int));
    }
    r
}

} // verus!
