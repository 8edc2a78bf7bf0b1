//! Fixed-width integer encodings and byte-range writes into output buffers.

use vstd::prelude::*;

verus! {

/// `data` written over `buf` starting at `at`; the rest of `buf` is kept.
pub open spec fn splice(buf: Seq<u8>, at: int, data: Seq<u8>) -> Seq<u8> {
    buf.subrange(0, at) + data + buf.subrange(at + data.len(), buf.len() as int)
}

/// The little-endian bytes of a 16-bit value.
pub open spec fn le16(v: u16) -> Seq<u8> {
    seq![(v & 0xff) as u8, ((v >> 8) & 0xff) as u8]
}

/// The little-endian bytes of a 32-bit value.
pub open spec fn le32(v: u32) -> Seq<u8> {
    seq![
        (v & 0xff) as u8,
        ((v >> 8) & 0xff) as u8,
        ((v >> 16) & 0xff) as u8,
        ((v >> 24) & 0xff) as u8,
    ]
}

/// The little-endian bytes of a 64-bit value.
pub open spec fn le64(v: u64) -> Seq<u8> {
    seq![
        (v & 0xff) as u8,
        ((v >> 8) & 0xff) as u8,
        ((v >> 16) & 0xff) as u8,
        ((v >> 24) & 0xff) as u8,
        ((v >> 32) & 0xff) as u8,
        ((v >> 40) & 0xff) as u8,
        ((v >> 48) & 0xff) as u8,
        ((v >> 56) & 0xff) as u8,
    ]
}

/// The big-endian bytes of a 32-bit value.
pub open spec fn be32(v: u32) -> Seq<u8> {
    seq![
        ((v >> 24) & 0xff) as u8,
        ((v >> 16) & 0xff) as u8,
        ((v >> 8) & 0xff) as u8,
        (v & 0xff) as u8,
    ]
}

/// The big-endian bytes of a 64-bit value.
pub open spec fn be64(v: u64) -> Seq<u8> {
    seq![
        ((v >> 56) & 0xff) as u8,
        ((v >> 48) & 0xff) as u8,
        ((v >> 40) & 0xff) as u8,
        ((v >> 32) & 0xff) as u8,
        ((v >> 24) & 0xff) as u8,
        ((v >> 16) & 0xff) as u8,
        ((v >> 8) & 0xff) as u8,
        (v & 0xff) as u8,
    ]
}

/// Copies `src` into `buf` at `at`.
pub fn copy_into(buf: &mut [u8], at: usize, src: &[u8])
    requires
        at + src@.len() <= old(buf)@.len(),
    ensures
        final(buf)@ == splice(old(buf)@, at as int, src@),
{
    let n = src.len();
    let len = buf.len();
    let mut i: usize = 0;
    while i < n
        invariant
            n == src@.len(),
            i <= n,
            at + n <= buf@.len(),
            buf@.len() == len,
            len == old(buf)@.len(),
            buf@ == splice(old(buf)@, at as int, src@.subrange(0, i as int)),
        decreases n - i,
    {
        buf[at + i] = src[i];
        i = i + 1;
        assert(buf@ == splice(old(buf)@, at as int, src@.subrange(0, i as int)));
    }
    assert(src@.subrange(0, n as int) == src@);
}

/// Writes `v` little-endian into `buf` at `at`.
pub fn put_le16(buf: &mut [u8], at: usize, v: u16)
    requires
        at + 2 <= old(buf)@.len(),
    ensures
        final(buf)@ == splice(old(buf)@, at as int, le16(v)),
{
    buf[at] = (v & 0xff) as u8;
    buf[at + 1] = ((v >> 8) & 0xff) as u8;
    assert(buf@ == splice(old(buf)@, at as int, le16(v)));
}

/// Writes `v` little-endian into `buf` at `at`.
pub fn put_le32(buf: &mut [u8], at: usize, v: u32)
    requires
        at + 4 <= old(buf)@.len(),
    ensures
        final(buf)@ == splice(old(buf)@, at as int, le32(v)),
{
    buf[at] = (v & 0xff) as u8;
    buf[at + 1] = ((v >> 8) & 0xff) as u8;
    buf[at + 2] = ((v >> 16) & 0xff) as u8;
    buf[at + 3] = ((v >> 24) & 0xff) as u8;
    assert(buf@ == splice(old(buf)@, at as int, le32(v)));
}

/// Writes `v` little-endian into `buf` at `at`.
pub fn put_le64(buf: &mut [u8], at: usize, v: u64)
    requires
        at + 8 <= old(buf)@.len(),
    ensures
        final(buf)@ == splice(old(buf)@, at as int, le64(v)),
{
    buf[at] = (v & 0xff) as u8;
    buf[at + 1] = ((v >> 8) & 0xff) as u8;
    buf[at + 2] = ((v >> 16) & 0xff) as u8;
    buf[at + 3] = ((v >> 24) & 0xff) as u8;
    buf[at + 4] = ((v >> 32) & 0xff) as u8;
    buf[at + 5] = ((v >> 40) & 0xff) as u8;
    buf[at + 6] = ((v >> 48) & 0xff) as u8;
    buf[at + 7] = ((v >> 56) & 0xff) as u8;
    assert(buf@ == splice(old(buf)@, at as int, le64(v)));
}

/// `s` begins with `p`.
pub open spec fn has_prefix(s: Seq<u8>, p: Seq<u8>) -> bool {
    p.len() <= s.len() && s.subrange(0, p.len() as int) == p
}

/// Whether `s` begins with `p`.
pub fn starts_with(s: &[u8], p: &[u8]) -> (r: bool)
    ensures
        r == has_prefix(s@, p@),
{
    if p.len() > s.len() {
        return false;
    }
    let n = p.len();
    let mut i: usize = 0;
    while i < n
        invariant
            n == p@.len(),
            n <= s@.len(),
            i <= n,
            s@.subrange(0, i as int) == p@.subrange(0, i as int),
        decreases n - i,
    {
        if s[i] != p[i] {
            assert(s@.subrange(0, n as int)[i as int] != p@[i as int]);
            return false;
        }
        i = i + 1;
        assert(s@.subrange(0, i as int) == p@.subrange(0, i as int));
    }
    assert(p@.subrange(0, n as int) == p@);
    true
}

/// Appends the bytes of `src`.
pub fn push_bytes(out: &mut Vec<u8>, src: &[u8])
    ensures
        final(out)@ == old(out)@ + src@,
{
    let n = src.len();
    let mut i: usize = 0;
    while i < n
        invariant
            n == src@.len(),
            i <= n,
            out@ == old(out)@ + src@.subrange(0, i as int),
        decreases n - i,
    {
        out.push(src[i]);
        i = i + 1;
        assert(out@ == old(out)@ + src@.subrange(0, i as int));
    }
    assert(src@.subrange(0, n as int) == src@);
}

/// `n` zero bytes.
pub open spec fn zeros(n: nat) -> Seq<u8> {
    Seq::new(n, |i: int| 0u8)
}

/// Appends `n` zero bytes.
pub fn push_zeros(out: &mut Vec<u8>, n: usize)
    ensures
        final(out)@ == old(out)@ + zeros(n as nat),
{
    let mut i: usize = 0;
    while i < n
        invariant
            i <= n,
            out@ == old(out)@ + zeros(i as nat),
        decreases n - i,
    {
        out.push(0);
        i = i + 1;
        assert(out@ == old(out)@ + zeros(i as nat));
    }
}

/// 32-bit words, little-endian, one after the other.
pub open spec fn le32_words(words: Seq<u32>) -> Seq<u8>
    decreases words.len(),
{
    if words.len() == 0 {
        Seq::empty()
    } else {
        le32_words(words.drop_last()) + le32(words.last())
    }
}

/// 64-bit words, little-endian, one after the other.
pub open spec fn le64_words(words: Seq<u64>) -> Seq<u8>
    decreases words.len(),
{
    if words.len() == 0 {
        Seq::empty()
    } else {
        le64_words(words.drop_last()) + le64(words.last())
    }
}

pub proof fn lemma_le32_words_len(words: Seq<u32>)
    ensures
        le32_words(words).len() == 4 * words.len(),
    decreases words.len(),
{
    if words.len() > 0 {
        lemma_le32_words_len(words.drop_last());
    }
}

pub proof fn lemma_le64_words_len(words: Seq<u64>)
    ensures
        le64_words(words).len() == 8 * words.len(),
    decreases words.len(),
{
    if words.len() > 0 {
        lemma_le64_words_len(words.drop_last());
    }
}

/// Writes `words` little-endian into `buf` from `at` on.
pub fn put_le32_words(buf: &mut [u8], at: usize, words: &[u32])
    requires
        at + 4 * words@.len() <= old(buf)@.len(),
    ensures
        final(buf)@ == splice(old(buf)@, at as int, le32_words(words@)),
{
    let n = words.len();
    let len = buf.len();
    let mut i: usize = 0;
    while i < n
        invariant
            n == words@.len(),
            len == buf@.len(),
            len == old(buf)@.len(),
            at + 4 * n <= len,
            i <= n,
            buf@ == splice(old(buf)@, at as int, le32_words(words@.take(i as int))),
        decreases n - i,
    {
        proof {
            lemma_le32_words_len(words@.take(i as int));
        }
        put_le32(buf, at + 4 * i, words[i]);
        proof {
            assert(words@.take(i + 1).drop_last() == words@.take(i as int));
            assert(buf@ == splice(old(buf)@, at as int, le32_words(words@.take(i + 1))));
        }
        i = i + 1;
    }
    assert(words@.take(n as int) == words@);
}

/// Writes `words` little-endian into `buf` from `at` on.
pub fn put_le64_words(buf: &mut [u8], at: usize, words: &[u64])
    requires
        at + 8 * words@.len() <= old(buf)@.len(),
    ensures
        final(buf)@ == splice(old(buf)@, at as int, le64_words(words@)),
{
    let n = words.len();
    let len = buf.len();
    let mut i: usize = 0;
    while i < n
        invariant
            n == words@.len(),
            len == buf@.len(),
            len == old(buf)@.len(),
            at + 8 * n <= len,
            i <= n,
            buf@ == splice(old(buf)@, at as int, le64_words(words@.take(i as int))),
        decreases n - i,
    {
        proof {
            lemma_le64_words_len(words@.take(i as int));
        }
        put_le64(buf, at + 8 * i, words[i]);
        proof {
            assert(words@.take(i + 1).drop_last() == words@.take(i as int));
            assert(buf@ == splice(old(buf)@, at as int, le64_words(words@.take(i + 1))));
        }
        i = i + 1;
    }
    assert(words@.take(n as int) == words@);
}

} // verus!
