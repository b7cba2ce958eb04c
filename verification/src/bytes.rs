//! Byte-level building blocks: little-endian 32-bit fields, NUL-terminated
//! strings, copying into a buffer, UTF-8 decoding and decimal numbers.

use vstd::prelude::*;
use vstd::utf8::decode_utf8;
use vstd::utf8::valid_utf8;

verus! {

/// The little-endian 32-bit value held by the four bytes of `b` from `off`.
pub open spec fn le_u32(b: Seq<u8>, off: int) -> int {
    b[off] + b[off + 1] * 256 + b[off + 2] * 65536 + b[off + 3] * 16777216
}

/// `b` with the four bytes from `off` replaced by the little-endian encoding of `v`.
pub open spec fn put_le_u32(b: Seq<u8>, off: int, v: u32) -> Seq<u8> {
    b.update(off, (v % 256) as u8).update(off + 1, ((v / 256) % 256) as u8).update(
        off + 2,
        ((v / 65536) % 256) as u8,
    ).update(off + 3, (v / 16777216) as u8)
}

/// `b` with the bytes from `off` on overwritten by `s`.
pub open spec fn splice(b: Seq<u8>, off: int, s: Seq<u8>) -> Seq<u8> {
    b.subrange(0, off) + s + b.subrange(off + s.len(), b.len() as int)
}

/// Number of bytes before the first NUL at or after `off` (up to the end of `b`).
pub open spec fn cstr_len(b: Seq<u8>, off: int) -> nat
    decreases b.len() - off,
{
    if off < 0 || off >= b.len() || b[off] == 0 {
        0
    } else {
        1 + cstr_len(b, off + 1)
    }
}

/// A NUL byte ends the string that starts at `off` inside `b`.
pub open spec fn cstr_terminated(b: Seq<u8>, off: int) -> bool {
    0 <= off && off + cstr_len(b, off) < b.len()
}

/// The bytes of the NUL-terminated string that starts at `off` in `b`.
pub open spec fn cstr_at(b: Seq<u8>, off: int) -> Seq<u8> {
    b.subrange(off, off + cstr_len(b, off))
}

/// The bytes of `s` up to its first NUL, which is what C sees of `s` once a
/// NUL has been appended to it.
pub open spec fn c_view(s: Seq<u8>) -> Seq<u8> {
    cstr_at(s.push(0u8), 0)
}

/// The decimal representation, in ASCII digits, of `n`.
pub open spec fn decimal(n: nat) -> Seq<u8>
    decreases n,
{
    if n < 10 {
        seq![(48 + n) as u8]
    } else {
        decimal(n / 10).push((48 + n % 10) as u8)
    }
}

pub proof fn lemma_put_le_u32(b: Seq<u8>, off: int, v: u32)
    requires
        0 <= off,
        off + 4 <= b.len(),
    ensures
        put_le_u32(b, off, v).len() == b.len(),
        le_u32(put_le_u32(b, off, v), off) == v,
        forall|i: int|
            0 <= i < b.len() && !(off <= i < off + 4) ==> #[trigger] put_le_u32(b, off, v)[i]
                == b[i],
{
    assert(v == (v % 256) + ((v / 256) % 256) * 256 + ((v / 65536) % 256) * 65536 + (v
        / 16777216) * 16777216) by (bit_vector);
    assert(v / 16777216 < 256) by (bit_vector);
}

pub proof fn lemma_cstr_len_bound(b: Seq<u8>, off: int)
    requires
        0 <= off <= b.len(),
    ensures
        off + cstr_len(b, off) <= b.len(),
        forall|k: int| off <= k < off + cstr_len(b, off) ==> b[k] != 0,
    decreases b.len() - off,
{
    if off < b.len() && b[off] != 0 {
        lemma_cstr_len_bound(b, off + 1);
    }
}

/// Reads the little-endian 32-bit value at `off`.
pub fn read_le_u32(b: &[u8], off: usize) -> (v: u32)
    requires
        off + 4 <= b@.len(),
    ensures
        v == le_u32(b@, off as int),
{
    let b0 = b[off] as u32;
    let b1 = b[off + 1] as u32;
    let b2 = b[off + 2] as u32;
    let b3 = b[off + 3] as u32;
    b0 + b1 * 256 + b2 * 65536 + b3 * 16777216
}

/// Stores `v` little-endian in the four bytes at `off`.
pub fn write_le_u32(b: &mut Vec<u8>, off: usize, v: u32)
    requires
        off + 4 <= old(b)@.len(),
    ensures
        final(b)@ == put_le_u32(old(b)@, off as int, v),
{
    let _len = b.len();
    b.set(off, (v % 256) as u8);
    b.set(off + 1, ((v / 256) % 256) as u8);
    b.set(off + 2, ((v / 65536) % 256) as u8);
    b.set(off + 3, (v / 16777216) as u8);
}

/// Overwrites the bytes of `dst` from `at` with `src`.
pub fn copy_into(dst: &mut Vec<u8>, at: usize, src: &[u8])
    requires
        at + src@.len() <= old(dst)@.len(),
    ensures
        final(dst)@ == splice(old(dst)@, at as int, src@),
{
    let ghost d0 = dst@;
    let dlen = dst.len();
    let n = src.len();
    let mut i: usize = 0;
    while i < n
        invariant
            n == src@.len(),
            i <= n,
            at + n <= d0.len(),
            dlen == d0.len(),
            dst@.len() == d0.len(),
            forall|j: int| 0 <= j < at ==> dst@[j] == d0[j],
            forall|j: int| at + n <= j < d0.len() ==> dst@[j] == d0[j],
            forall|j: int| 0 <= j < i ==> dst@[at + j] == src@[j],
        decreases n - i,
    {
        dst.set(at + i, src[i]);
        i = i + 1;
    }
    assert(dst@ =~= splice(d0, at as int, src@)) by {
        let s = splice(d0, at as int, src@);
        assert forall|j: int| 0 <= j < d0.len() implies dst@[j] == s[j] by {
            if j < at {
            } else if j < at + n {
                assert(dst@[at + (j - at)] == src@[j - at]);
            } else {
            }
        }
    }
}

/// A copy of the bytes of `b` in `[start, end)`.
pub fn copy_range(b: &[u8], start: usize, end: usize) -> (r: Vec<u8>)
    requires
        start <= end <= b@.len(),
    ensures
        r@ == b@.subrange(start as int, end as int),
{
    let mut r: Vec<u8> = Vec::new();
    let mut i = start;
    while i < end
        invariant
            start <= i <= end,
            end <= b@.len(),
            r@ =~= b@.subrange(start as int, i as int),
        decreases end - i,
    {
        r.push(b[i]);
        i = i + 1;
    }
    r
}

/// The position of the NUL that ends the string starting at `off`.
pub fn cstr_end(b: &[u8], off: usize) -> (end: usize)
    requires
        cstr_terminated(b@, off as int),
    ensures
        end == off + cstr_len(b@, off as int),
        end < b@.len(),
        b@[end as int] == 0,
{
    let mut i = off;
    while b[i] != 0
        invariant
            off <= i,
            i + cstr_len(b@, i as int) == off + cstr_len(b@, off as int),
            off + cstr_len(b@, off as int) < b@.len(),
        decreases b@.len() - i,
    {
        i = i + 1;
    }
    i
}

/// The position of the NUL that ends the string starting at `off`, if a NUL
/// follows `off` in `b`.
pub fn cstr_find_end(b: &[u8], off: usize) -> (end: Option<usize>)
    ensures
        end is Some <==> cstr_terminated(b@, off as int),
        end matches Some(e) ==> e == off + cstr_len(b@, off as int),
{
    let n = b.len();
    if off >= n {
        return None;
    }
    let mut i = off;
    while i < n && b[i] != 0
        invariant
            off <= i <= n,
            n == b@.len(),
            i + cstr_len(b@, i as int) == off + cstr_len(b@, off as int),
        decreases n - i,
    {
        i = i + 1;
    }
    if i < n {
        Some(i)
    } else {
        None
    }
}

/// The bytes of the NUL-terminated string that starts at `off`.
pub fn cstr_bytes(b: &[u8], off: usize) -> (r: Vec<u8>)
    requires
        cstr_terminated(b@, off as int),
    ensures
        r@ == cstr_at(b@, off as int),
{
    let end = cstr_end(b, off);
    copy_range(b, off, end)
}

/// The bytes of `s` up to its first NUL.
pub fn c_bytes(s: &[u8]) -> (r: Vec<u8>)
    ensures
        r@ == c_view(s@),
{
    let mut v = copy_range(s, 0, s.len());
    v.push(0u8);
    assert(v@ =~= s@.push(0u8));
    proof {
        lemma_cstr_len_bound(v@, 0);
        assert(v@[s@.len() as int] == 0);
        lemma_cstr_len_stops(v@, 0, s@.len() as int);
    }
    cstr_bytes(v.as_slice(), 0)
}

/// A NUL at `nul` ends the string at `off` there or before; exactly there
/// when no byte in between is a NUL.
pub proof fn lemma_cstr_len_stops(b: Seq<u8>, off: int, nul: int)
    requires
        0 <= off <= nul < b.len(),
        b[nul] == 0,
    ensures
        off + cstr_len(b, off) <= nul,
        (forall|i: int| off <= i < nul ==> b[i] != 0) ==> off + cstr_len(b, off) == nul,
    decreases nul - off,
{
    if b[off] != 0 {
        lemma_cstr_len_stops(b, off + 1, nul);
    }
}

/// C sees all of a byte string that holds no NUL.
pub proof fn lemma_c_view_no_nul(s: Seq<u8>)
    requires
        forall|i: int| 0 <= i < s.len() ==> s[i] != 0,
    ensures
        c_view(s) == s,
{
    let t = s.push(0u8);
    assert forall|i: int| 0 <= i < s.len() implies t[i] != 0 by {
        assert(t[i] == s[i]);
    }
    lemma_cstr_len_stops(t, 0, s.len() as int);
    assert(c_view(s) =~= s);
}

/// Splicing `s` into `b` at `at` keeps the length, puts `s` there and leaves
/// every other byte as it was.
pub proof fn lemma_splice_frame(b: Seq<u8>, at: int, s: Seq<u8>)
    requires
        0 <= at,
        at + s.len() <= b.len(),
    ensures
        splice(b, at, s).len() == b.len(),
        splice(b, at, s).subrange(at, at + s.len()) == s,
        forall|i: int|
            0 <= i < b.len() && !(at <= i < at + s.len()) ==> #[trigger] splice(b, at, s)[i]
                == b[i],
{
    let t = splice(b, at, s);
    assert(t.subrange(at, at + s.len()) =~= s);
    assert forall|i: int| 0 <= i < b.len() && !(at <= i < at + s.len()) implies #[trigger] t[i]
        == b[i] by {
        if i < at {
        } else {
        }
    }
}

/// Two byte strings that agree on four bytes hold the same 32-bit value there.
pub proof fn lemma_le_u32_same(a: Seq<u8>, b: Seq<u8>, off: int)
    requires
        0 <= off,
        off + 4 <= a.len(),
        off + 4 <= b.len(),
        a[off] == b[off],
        a[off + 1] == b[off + 1],
        a[off + 2] == b[off + 2],
        a[off + 3] == b[off + 3],
    ensures
        le_u32(a, off) == le_u32(b, off),
{
}

/// `String::from_utf8`. Its documentation: it succeeds exactly when the bytes
/// are valid UTF-8, and the string it returns is the one those bytes encode.
#[verifier::external_body]
pub(crate) fn string_from_utf8(bytes: Vec<u8>) -> (r: Option<String>)
    ensures
        r is Some <==> valid_utf8(bytes@),
        r matches Some(s) ==> s@ == decode_utf8(bytes@),
{
    String::from_utf8(bytes).ok()
}

/// Decodes bytes that are known to be valid UTF-8.
pub fn utf8_string(bytes: Vec<u8>) -> (s: String)
    requires
        valid_utf8(bytes@),
    ensures
        s@ == decode_utf8(bytes@),
{
    match string_from_utf8(bytes) {
        Some(s) => s,
        None => String::new(),
    }
}

/// Appends the decimal digits of `n` to `out`.
pub fn push_decimal(n: usize, out: &mut Vec<u8>)
    ensures
        final(out)@ == old(out)@ + decimal(n as nat),
    decreases n,
{
    if n >= 10 {
        push_decimal(n / 10, out);
    }
    out.push((48 + n % 10) as u8);
    proof {
        if n < 10 {
            assert(decimal(n as nat) =~= seq![(48 + n) as u8]);
        }
    }
}

} // verus!
