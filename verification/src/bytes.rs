//! Byte-string helpers: equality, substring search and big-endian encodings.
use vstd::prelude::*;

verus! {

/// Byte-wise equality of two byte strings.
pub fn bytes_equal(a: &[u8], b: &[u8]) -> (r: bool)
    ensures
        r == (a@ == b@),
{
    if a.len() != b.len() {
        return false;
    }
    let n = a.len();
    let mut i: usize = 0;
    while i < n
        invariant
            n == a@.len(),
            n == b@.len(),
            i <= n,
            forall|j: int| 0 <= j < i ==> a@[j] == b@[j],
        decreases n - i,
    {
        if a[i] != b[i] {
            assert(a@[i as int] != b@[i as int]);
            return false;
        }
        i += 1;
    }
    assert(a@ =~= b@);
    true
}

/// A fresh vector holding the same bytes.
pub fn copy_bytes(src: &[u8]) -> (out: Vec<u8>)
    ensures
        out@ == src@,
{
    let mut out: Vec<u8> = Vec::new();
    let n = src.len();
    let mut i: usize = 0;
    while i < n
        invariant
            n == src@.len(),
            i <= n,
            out@ == src@.subrange(0, i as int),
        decreases n - i,
    {
        out.push(src[i]);
        i += 1;
        assert(out@ =~= src@.subrange(0, i as int));
    }
    assert(out@ =~= src@);
    out
}

/// Appends the bytes of `src` to `out`.
pub fn append_bytes(out: &mut Vec<u8>, src: &[u8])
    ensures
        final(out)@ == old(out)@ + src@,
{
    let ghost start = out@;
    let n = src.len();
    let mut i: usize = 0;
    while i < n
        invariant
            n == src@.len(),
            i <= n,
            out@ == start + src@.subrange(0, i as int),
        decreases n - i,
    {
        out.push(src[i]);
        i += 1;
        assert(out@ =~= start + src@.subrange(0, i as int));
    }
    assert(src@.subrange(0, n as int) =~= src@);
}

/// `needle` occurs in `haystack` starting at position `i`.
pub open spec fn occurs_at(haystack: Seq<u8>, needle: Seq<u8>, i: int) -> bool {
    &&& 0 <= i
    &&& i + needle.len() <= haystack.len()
    &&& forall|j: int| 0 <= j < needle.len() ==> haystack[i + j] == needle[j]
}

/// A non-empty `needle` occurs somewhere in `haystack`.
pub open spec fn contains_bytes(haystack: Seq<u8>, needle: Seq<u8>) -> bool {
    needle.len() > 0 && exists|i: int| #[trigger] occurs_at(haystack, needle, i)
}

/// Substring search: whether a non-empty `needle` occurs in `haystack`. An
/// empty needle is never found.
pub fn bytes_contains(haystack: &[u8], needle: &[u8]) -> (r: bool)
    ensures
        r == contains_bytes(haystack@, needle@),
{
    let h_len = haystack.len();
    let n_len = needle.len();
    if n_len == 0 {
        return false;
    }
    if n_len > h_len {
        assert forall|i: int| !#[trigger] occurs_at(haystack@, needle@, i) by {}
        return false;
    }
    let last = h_len - n_len;
    let mut i: usize = 0;
    while i <= last
        invariant
            h_len == haystack@.len(),
            n_len == needle@.len(),
            0 < n_len <= h_len,
            last == h_len - n_len,
            i <= last + 1,
            forall|k: int| 0 <= k < i ==> !#[trigger] occurs_at(haystack@, needle@, k),
        decreases last + 1 - i,
    {
        let mut j: usize = 0;
        while j < n_len && haystack[i + j] == needle[j]
            invariant
                h_len == haystack@.len(),
                n_len == needle@.len(),
                i + n_len <= h_len,
                j <= n_len,
                forall|jj: int| 0 <= jj < j ==> haystack@[i + jj] == needle@[jj],
            decreases n_len - j,
        {
            j += 1;
        }
        if j == n_len {
            assert(occurs_at(haystack@, needle@, i as int));
            return true;
        }
        assert(haystack@[i + j] != needle@[j as int]);
        assert(!occurs_at(haystack@, needle@, i as int));
        i += 1;
    }
    assert forall|k: int| !#[trigger] occurs_at(haystack@, needle@, k) by {
        if 0 <= k < i {
        }
    }
    false
}

/// The big-endian bytes of a `u64`, most significant first.
pub open spec fn u64_be_bytes(x: u64) -> Seq<u8> {
    Seq::new(8, |i: int| ((x >> ((56 - 8 * i) as u64)) & 0xffu64) as u8)
}

/// The big-endian bytes of a `u128`, most significant first.
pub open spec fn u128_be_bytes(x: u128) -> Seq<u8> {
    Seq::new(16, |i: int| ((x >> ((120 - 8 * i) as u128)) & 0xffu128) as u8)
}

/// The big-endian two's-complement bytes of an `i128`.
pub open spec fn i128_be_bytes(x: i128) -> Seq<u8> {
    u128_be_bytes(x as u128)
}

/// Appends the big-endian bytes of `x` to `out`.
pub fn push_u64_be(out: &mut Vec<u8>, x: u64)
    ensures
        final(out)@ == old(out)@ + u64_be_bytes(x),
{
    let ghost start = out@;
    let mut i: u64 = 0;
    while i < 8
        invariant
            i <= 8,
            out@ == start + u64_be_bytes(x).take(i as int),
        decreases 8 - i,
    {
        out.push(((x >> (56 - 8 * i)) & 0xffu64) as u8);
        i += 1;
        assert(out@ =~= start + u64_be_bytes(x).take(i as int));
    }
    assert(u64_be_bytes(x).take(8) =~= u64_be_bytes(x));
}

/// Appends the big-endian two's-complement bytes of `x` to `out`.
pub fn push_i128_be(out: &mut Vec<u8>, x: i128)
    ensures
        final(out)@ == old(out)@ + i128_be_bytes(x),
{
    let u = x as u128;
    let ghost start = out@;
    let mut i: u128 = 0;
    while i < 16
        invariant
            i <= 16,
            u == x as u128,
            out@ == start + u128_be_bytes(u).take(i as int),
        decreases 16 - i,
    {
        out.push(((u >> (120 - 8 * i)) & 0xffu128) as u8);
        i += 1;
        assert(out@ =~= start + u128_be_bytes(u).take(i as int));
    }
    assert(u128_be_bytes(u).take(16) =~= u128_be_bytes(u));
}

/// Distinct numbers have distinct big-endian bytes.
pub proof fn lemma_u64_be_bytes_injective(a: u64, b: u64)
    requires
        u64_be_bytes(a) == u64_be_bytes(b),
    ensures
        a == b,
{
    let sa = u64_be_bytes(a);
    let sb = u64_be_bytes(b);
    assert forall|k: int| 0 <= k < 8 implies #[trigger] sa[k] == sb[k] by {}
    assert(sa[0] == ((a >> 56u64) & 0xffu64) as u8 && sb[0] == ((b >> 56u64) & 0xffu64) as u8);
    assert(sa[1] == ((a >> 48u64) & 0xffu64) as u8 && sb[1] == ((b >> 48u64) & 0xffu64) as u8);
    assert(sa[2] == ((a >> 40u64) & 0xffu64) as u8 && sb[2] == ((b >> 40u64) & 0xffu64) as u8);
    assert(sa[3] == ((a >> 32u64) & 0xffu64) as u8 && sb[3] == ((b >> 32u64) & 0xffu64) as u8);
    assert(sa[4] == ((a >> 24u64) & 0xffu64) as u8 && sb[4] == ((b >> 24u64) & 0xffu64) as u8);
    assert(sa[5] == ((a >> 16u64) & 0xffu64) as u8 && sb[5] == ((b >> 16u64) & 0xffu64) as u8);
    assert(sa[6] == ((a >> 8u64) & 0xffu64) as u8 && sb[6] == ((b >> 8u64) & 0xffu64) as u8);
    assert(sa[7] == ((a >> 0u64) & 0xffu64) as u8 && sb[7] == ((b >> 0u64) & 0xffu64) as u8);
    assert(a == b) by (bit_vector)
        requires
            ((a >> 56u64) & 0xffu64) as u8 == ((b >> 56u64) & 0xffu64) as u8,
            ((a >> 48u64) & 0xffu64) as u8 == ((b >> 48u64) & 0xffu64) as u8,
            ((a >> 40u64) & 0xffu64) as u8 == ((b >> 40u64) & 0xffu64) as u8,
            ((a >> 32u64) & 0xffu64) as u8 == ((b >> 32u64) & 0xffu64) as u8,
            ((a >> 24u64) & 0xffu64) as u8 == ((b >> 24u64) & 0xffu64) as u8,
            ((a >> 16u64) & 0xffu64) as u8 == ((b >> 16u64) & 0xffu64) as u8,
            ((a >> 8u64) & 0xffu64) as u8 == ((b >> 8u64) & 0xffu64) as u8,
            ((a >> 0u64) & 0xffu64) as u8 == ((b >> 0u64) & 0xffu64) as u8,
    ;
}

/// Distinct `i128` values have distinct big-endian bytes.
pub proof fn lemma_i128_be_bytes_injective(a: i128, b: i128)
    requires
        i128_be_bytes(a) == i128_be_bytes(b),
    ensures
        a == b,
{
    let ua = a as u128;
    let ub = b as u128;
    let sa = u128_be_bytes(ua);
    let sb = u128_be_bytes(ub);
    assert forall|k: int| 0 <= k < 16 implies #[trigger] sa[k] == sb[k] by {}
    assert(sa[0] == ((ua >> 120u128) & 0xffu128) as u8 && sb[0] == ((ub >> 120u128) & 0xffu128) as u8);
    assert(sa[1] == ((ua >> 112u128) & 0xffu128) as u8 && sb[1] == ((ub >> 112u128) & 0xffu128) as u8);
    assert(sa[2] == ((ua >> 104u128) & 0xffu128) as u8 && sb[2] == ((ub >> 104u128) & 0xffu128) as u8);
    assert(sa[3] == ((ua >> 96u128) & 0xffu128) as u8 && sb[3] == ((ub >> 96u128) & 0xffu128) as u8);
    assert(sa[4] == ((ua >> 88u128) & 0xffu128) as u8 && sb[4] == ((ub >> 88u128) & 0xffu128) as u8);
    assert(sa[5] == ((ua >> 80u128) & 0xffu128) as u8 && sb[5] == ((ub >> 80u128) & 0xffu128) as u8);
    assert(sa[6] == ((ua >> 72u128) & 0xffu128) as u8 && sb[6] == ((ub >> 72u128) & 0xffu128) as u8);
    assert(sa[7] == ((ua >> 64u128) & 0xffu128) as u8 && sb[7] == ((ub >> 64u128) & 0xffu128) as u8);
    assert(sa[8] == ((ua >> 56u128) & 0xffu128) as u8 && sb[8] == ((ub >> 56u128) & 0xffu128) as u8);
    assert(sa[9] == ((ua >> 48u128) & 0xffu128) as u8 && sb[9] == ((ub >> 48u128) & 0xffu128) as u8);
    assert(sa[10] == ((ua >> 40u128) & 0xffu128) as u8 && sb[10] == ((ub >> 40u128) & 0xffu128) as u8);
    assert(sa[11] == ((ua >> 32u128) & 0xffu128) as u8 && sb[11] == ((ub >> 32u128) & 0xffu128) as u8);
    assert(sa[12] == ((ua >> 24u128) & 0xffu128) as u8 && sb[12] == ((ub >> 24u128) & 0xffu128) as u8);
    assert(sa[13] == ((ua >> 16u128) & 0xffu128) as u8 && sb[13] == ((ub >> 16u128) & 0xffu128) as u8);
    assert(sa[14] == ((ua >> 8u128) & 0xffu128) as u8 && sb[14] == ((ub >> 8u128) & 0xffu128) as u8);
    assert(sa[15] == ((ua >> 0u128) & 0xffu128) as u8 && sb[15] == ((ub >> 0u128) & 0xffu128) as u8);
    assert(ua == ub) by (bit_vector)
        requires
            ((ua >> 120u128) & 0xffu128) as u8 == ((ub >> 120u128) & 0xffu128) as u8,
            ((ua >> 112u128) & 0xffu128) as u8 == ((ub >> 112u128) & 0xffu128) as u8,
            ((ua >> 104u128) & 0xffu128) as u8 == ((ub >> 104u128) & 0xffu128) as u8,
            ((ua >> 96u128) & 0xffu128) as u8 == ((ub >> 96u128) & 0xffu128) as u8,
            ((ua >> 88u128) & 0xffu128) as u8 == ((ub >> 88u128) & 0xffu128) as u8,
            ((ua >> 80u128) & 0xffu128) as u8 == ((ub >> 80u128) & 0xffu128) as u8,
            ((ua >> 72u128) & 0xffu128) as u8 == ((ub >> 72u128) & 0xffu128) as u8,
            ((ua >> 64u128) & 0xffu128) as u8 == ((ub >> 64u128) & 0xffu128) as u8,
            ((ua >> 56u128) & 0xffu128) as u8 == ((ub >> 56u128) & 0xffu128) as u8,
            ((ua >> 48u128) & 0xffu128) as u8 == ((ub >> 48u128) & 0xffu128) as u8,
            ((ua >> 40u128) & 0xffu128) as u8 == ((ub >> 40u128) & 0xffu128) as u8,
            ((ua >> 32u128) & 0xffu128) as u8 == ((ub >> 32u128) & 0xffu128) as u8,
            ((ua >> 24u128) & 0xffu128) as u8 == ((ub >> 24u128) & 0xffu128) as u8,
            ((ua >> 16u128) & 0xffu128) as u8 == ((ub >> 16u128) & 0xffu128) as u8,
            ((ua >> 8u128) & 0xffu128) as u8 == ((ub >> 8u128) & 0xffu128) as u8,
            ((ua >> 0u128) & 0xffu128) as u8 == ((ub >> 0u128) & 0xffu128) as u8,
    ;
    assert(a == b) by (bit_vector)
        requires
            a as u128 == b as u128,
    ;
}

/// Substring search finds exactly the substrings: a non-empty `needle` is
/// found in any string made of some bytes, the needle, and some more bytes,
/// and whenever it is found the haystack splits that way.
pub proof fn lemma_contains_bytes_is_substring(haystack: Seq<u8>, needle: Seq<u8>, before: Seq<u8>, after: Seq<u8>)
    ensures
        needle.len() > 0 ==> contains_bytes(before + needle + after, needle),
        contains_bytes(haystack, needle) ==> needle.len() > 0 && exists|i: int|
            0 <= i && i + needle.len() <= haystack.len() && haystack =~= #[trigger] haystack.take(i) + needle
                + haystack.skip(i + needle.len()),
{
    if needle.len() > 0 {
        let h = before + needle + after;
        assert(occurs_at(h, needle, before.len() as int));
    }
    if contains_bytes(haystack, needle) {
        let i = choose|i: int| #[trigger] occurs_at(haystack, needle, i);
        assert(haystack =~= haystack.take(i) + needle + haystack.skip(i + needle.len()));
    }
}

} // verus!
