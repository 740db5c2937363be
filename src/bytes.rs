//! Little-endian integers and fixed-width fields inside byte strings.
use vstd::prelude::*;

verus! {

/// The eight little-endian bytes of `x`.
pub open spec fn u64_le(x: u64) -> Seq<u8> {
    seq![
        (x & 0xff) as u8,
        ((x >> 8) & 0xff) as u8,
        ((x >> 16) & 0xff) as u8,
        ((x >> 24) & 0xff) as u8,
        ((x >> 32) & 0xff) as u8,
        ((x >> 40) & 0xff) as u8,
        ((x >> 48) & 0xff) as u8,
        ((x >> 56) & 0xff) as u8,
    ]
}

/// A 32-byte word holding `x` in little-endian order, zero-padded.
pub open spec fn u64_word(x: u64) -> Seq<u8> {
    u64_le(x) + Seq::new(24, |i: int| 0u8)
}

/// The integer whose little-endian bytes start `b`.
pub open spec fn le_u64(b: Seq<u8>) -> u64
    recommends
        b.len() >= 8,
{
    (b[0] as u64) | ((b[1] as u64) << 8) | ((b[2] as u64) << 16) | ((b[3] as u64) << 24) | ((
    b[4] as u64) << 32) | ((b[5] as u64) << 40) | ((b[6] as u64) << 48) | ((b[7] as u64) << 56)
}

/// Reading back the bytes of an integer gives the integer.
pub proof fn lemma_u64_round_trip(x: u64)
    ensures
        le_u64(u64_le(x)) == x,
        le_u64(u64_word(x)) == x,
{
    let b = u64_le(x);
    let b0 = (x & 0xff) as u8;
    let b1 = ((x >> 8) & 0xff) as u8;
    let b2 = ((x >> 16) & 0xff) as u8;
    let b3 = ((x >> 24) & 0xff) as u8;
    let b4 = ((x >> 32) & 0xff) as u8;
    let b5 = ((x >> 40) & 0xff) as u8;
    let b6 = ((x >> 48) & 0xff) as u8;
    let b7 = ((x >> 56) & 0xff) as u8;
    assert(b[0] == b0 && b[1] == b1 && b[2] == b2 && b[3] == b3);
    assert(b[4] == b4 && b[5] == b5 && b[6] == b6 && b[7] == b7);
    assert(((b0 as u64) | ((b1 as u64) << 8) | ((b2 as u64) << 16) | ((b3 as u64) << 24) | ((
    b4 as u64) << 32) | ((b5 as u64) << 40) | ((b6 as u64) << 48) | ((b7 as u64) << 56)) == x)
        by (bit_vector)
        requires
            b0 == (x & 0xff) as u8,
            b1 == ((x >> 8) & 0xff) as u8,
            b2 == ((x >> 16) & 0xff) as u8,
            b3 == ((x >> 24) & 0xff) as u8,
            b4 == ((x >> 32) & 0xff) as u8,
            b5 == ((x >> 40) & 0xff) as u8,
            b6 == ((x >> 48) & 0xff) as u8,
            b7 == ((x >> 56) & 0xff) as u8,
    ;
    let w = u64_word(x);
    assert(w[0] == b0 && w[1] == b1 && w[2] == b2 && w[3] == b3);
    assert(w[4] == b4 && w[5] == b5 && w[6] == b6 && w[7] == b7);
}

/// Writing back the integer that eight bytes denote gives the bytes.
pub proof fn lemma_u64_le_inverse(s: Seq<u8>)
    requires
        s.len() == 8,
    ensures
        u64_le(le_u64(s)) == s,
{
    let (b0, b1, b2, b3, b4, b5, b6, b7) = (s[0], s[1], s[2], s[3], s[4], s[5], s[6], s[7]);
    let x = le_u64(s);
    assert(x == (b0 as u64) | ((b1 as u64) << 8) | ((b2 as u64) << 16) | ((b3 as u64) << 24) | ((
    b4 as u64) << 32) | ((b5 as u64) << 40) | ((b6 as u64) << 48) | ((b7 as u64) << 56));
    assert((x & 0xff) as u8 == b0 && ((x >> 8) & 0xff) as u8 == b1 && ((x >> 16) & 0xff) as u8 == b2
        && ((x >> 24) & 0xff) as u8 == b3 && ((x >> 32) & 0xff) as u8 == b4 && ((x >> 40) & 0xff) as u8 == b5
        && ((x >> 48) & 0xff) as u8 == b6 && ((x >> 56) & 0xff) as u8 == b7) by (bit_vector)
        requires
            x == (b0 as u64) | ((b1 as u64) << 8) | ((b2 as u64) << 16) | ((b3 as u64) << 24) | ((
            b4 as u64) << 32) | ((b5 as u64) << 40) | ((b6 as u64) << 48) | ((b7 as u64) << 56),
    ;
    assert(u64_le(x) =~= s);
}

/// Appends `b` to `buf`.
pub fn push_all(buf: &mut Vec<u8>, b: &[u8])
    ensures
        final(buf)@ == old(buf)@ + b@,
{
    let mut i: usize = 0;
    while i < b.len()
        invariant
            i <= b@.len(),
            buf@ == old(buf)@ + b@.subrange(0, i as int),
        decreases b@.len() - i,
    {
        buf.push(b[i]);
        i = i + 1;
        proof {
            assert(b@.subrange(0, i as int) == b@.subrange(0, i - 1) + seq![b@[i - 1]]);
        }
    }
    proof {
        assert(b@.subrange(0, b@.len() as int) == b@);
    }
}

/// The eight little-endian bytes of `x`.
pub fn u64_le_bytes(x: u64) -> (r: Vec<u8>)
    ensures
        r@ == u64_le(x),
{
    let r: Vec<u8> = vec![
        (x & 0xff) as u8,
        ((x >> 8) & 0xff) as u8,
        ((x >> 16) & 0xff) as u8,
        ((x >> 24) & 0xff) as u8,
        ((x >> 32) & 0xff) as u8,
        ((x >> 40) & 0xff) as u8,
        ((x >> 48) & 0xff) as u8,
        ((x >> 56) & 0xff) as u8,
    ];
    proof {
        assert(r@ =~= u64_le(x));
    }
    r
}

/// Appends `x` as a zero-padded 32-byte little-endian word.
pub fn push_u64_word(buf: &mut Vec<u8>, x: u64)
    ensures
        final(buf)@ == old(buf)@ + u64_word(x),
{
    let mut w = [0u8; 32];
    w[0] = (x & 0xff) as u8;
    w[1] = ((x >> 8) & 0xff) as u8;
    w[2] = ((x >> 16) & 0xff) as u8;
    w[3] = ((x >> 24) & 0xff) as u8;
    w[4] = ((x >> 32) & 0xff) as u8;
    w[5] = ((x >> 40) & 0xff) as u8;
    w[6] = ((x >> 48) & 0xff) as u8;
    w[7] = ((x >> 56) & 0xff) as u8;
    proof {
        assert(w@ =~= u64_word(x));
    }
    push_all(buf, w.as_slice());
}

/// Reads the little-endian integer in the eight bytes at `pos`.
pub fn read_u64(s: &[u8], pos: usize) -> (r: u64)
    requires
        pos + 8 <= s@.len(),
    ensures
        r == le_u64(s@.subrange(pos as int, pos + 8)),
{
    (s[pos] as u64) | ((s[pos + 1] as u64) << 8) | ((s[pos + 2] as u64) << 16) | ((s[pos + 3] as u64) << 24)
        | ((s[pos + 4] as u64) << 32) | ((s[pos + 5] as u64) << 40) | ((s[pos + 6] as u64) << 48)
        | ((s[pos + 7] as u64) << 56)
}

/// Copies the 32 bytes at `pos`.
pub fn read32(s: &[u8], pos: usize) -> (r: [u8; 32])
    requires
        pos + 32 <= s@.len(),
    ensures
        r@ == s@.subrange(pos as int, pos + 32),
{
    let mut r = [0u8; 32];
    let n = s.len();
    let mut i: usize = 0;
    while i < 32
        invariant
            n == s@.len(),
            pos + 32 <= s@.len(),
            i <= 32,
            forall|j: int| 0 <= j < i ==> r@[j] == s@[pos + j],
        decreases 32 - i,
    {
        r[i] = s[pos + i];
        i = i + 1;
    }
    proof {
        assert(r@ =~= s@.subrange(pos as int, pos + 32));
    }
    r
}

} // verus!

verus! {

/// The byte string made of `n` consecutive 32-byte words, word `j` being `f(j)`.
pub open spec fn join_words(n: nat, f: spec_fn(int) -> Seq<u8>) -> Seq<u8> {
    Seq::new(32 * n, |i: int| f(i / 32)[i % 32])
}

/// Word `j` of a joined string is `f(j)`.
pub proof fn lemma_join_words_word(n: nat, f: spec_fn(int) -> Seq<u8>, j: int)
    requires
        0 <= j < n,
        f(j).len() == 32,
    ensures
        join_words(n, f).subrange(32 * j, 32 * j + 32) == f(j),
{
    let s = join_words(n, f);
    assert forall|i: int| 0 <= i < 32 implies #[trigger] s.subrange(32 * j, 32 * j + 32)[i] == f(j)[i] by {
        assert((32 * j + i) / 32 == j);
        assert((32 * j + i) % 32 == i);
    }
    assert(s.subrange(32 * j, 32 * j + 32) =~= f(j));
}

/// The first `j + 1` words are the first `j` words followed by `f(j)`.
pub proof fn lemma_join_words_prefix(n: nat, f: spec_fn(int) -> Seq<u8>, j: int)
    requires
        0 <= j < n,
        f(j).len() == 32,
    ensures
        join_words(n, f).subrange(0, 32 * j + 32) == join_words(n, f).subrange(0, 32 * j) + f(j),
{
    lemma_join_words_word(n, f, j);
    let s = join_words(n, f);
    assert(s.subrange(0, 32 * j + 32) =~= s.subrange(0, 32 * j) + s.subrange(32 * j, 32 * j + 32));
}

} // verus!

verus! {

/// Whether the 32 bytes at `pos` are `u64_word(x)`.
pub fn word_matches(s: &[u8], pos: usize, x: u64) -> (r: bool)
    requires
        pos + 32 <= s@.len(),
    ensures
        r == (s@.subrange(pos as int, pos + 32) == u64_word(x)),
{
    let mut w: Vec<u8> = Vec::new();
    push_u64_word(&mut w, x);
    proof {
        assert(w@ =~= u64_word(x));
    }
    let n = s.len();
    let mut i: usize = 0;
    while i < 32
        invariant
            n == s@.len(),
            pos + 32 <= n,
            w@ == u64_word(x),
            w@.len() == 32,
            i <= 32,
            forall|j: int| 0 <= j < i ==> s@[pos + j] == w@[j],
        decreases 32 - i,
    {
        if s[pos + i] != w[i] {
            proof {
                assert(s@.subrange(pos as int, pos + 32)[i as int] != u64_word(x)[i as int]);
            }
            return false;
        }
        i = i + 1;
    }
    proof {
        assert(s@.subrange(pos as int, pos + 32) =~= u64_word(x));
    }
    true
}

} // verus!
