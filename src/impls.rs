//! Helpers for implementing [`RngCore`](crate::RngCore) functions.
//!
//! For cross-platform reproducibility these functions use little-endian
//! order: least-significant part first. For example, `next_u64_via_u32` takes
//! `u32` values `x, y`, then outputs `(y << 32) | x`.
use vstd::prelude::*;

use crate::encoding::{
    u32_from_be, u32_from_le, u32_le_byte, u32_le_bytes, u32s_le_bytes, u64_from_be, u64_from_le,
    u64_le_byte, u64_le_bytes, u64s_le_bytes,
};
use crate::{Draw, RngCore};

verus! {

/// The 64-bit word whose low half is `lo` and whose high half is `hi`.
pub open spec fn u64_from_halves(lo: u32, hi: u32) -> u64 {
    ((hi as u64) << 32u64) | (lo as u64)
}

/// Joins two 32-bit words into one 64-bit word, `lo` in the low half.
pub fn join_u32_pair(lo: u32, hi: u32) -> (r: u64)
    ensures
        r == u64_from_halves(lo, hi),
        r as int == hi as int * 0x1_0000_0000 + lo as int,
{
    let x = lo as u64;
    let y = hi as u64;
    assert((y << 32u64) | x == y * 0x1_0000_0000 + x) by (bit_vector)
        requires
            x < 0x1_0000_0000,
            y < 0x1_0000_0000,
    ;
    (y << 32u64) | x
}

/// Implements `next_u64` via `next_u32`, little-endian order: draws two
/// 32-bit words and nothing else; the first drawn is the low half of the
/// result, the second the high half.
pub fn next_u64_via_u32<R: RngCore + ?Sized>(rng: &mut R) -> (r: u64)
    ensures
        exists|lo: u32, hi: u32|
            #![trigger u64_from_halves(lo, hi)]
            final(rng).history() == old(rng).history().push(Draw::Word32(lo)).push(Draw::Word32(hi))
                && r == u64_from_halves(lo, hi),
{
    let x = rng.next_u32();
    let y = rng.next_u32();
    join_u32_pair(x, y)
}

/// How many bytes a chunk fill writes: the whole source, encoded at
/// `word_size` bytes a word, or as much of it as fits in the destination.
pub open spec fn chunk_fill_len(n_words: nat, word_size: nat, dest_len: nat) -> nat {
    if n_words * word_size <= dest_len {
        n_words * word_size
    } else {
        dest_len
    }
}

/// How many words of `word_size` bytes it takes to give `n_bytes` bytes: the
/// quotient rounded up.
pub open spec fn words_for_bytes(n_bytes: nat, word_size: nat) -> nat
    recommends
        word_size > 0,
{
    ((n_bytes + word_size - 1) as nat) / word_size
}

/// The `(consumed, filled)` pair of `fill_via_u32_chunks` for a source of
/// `n_words` words and a destination of `dest_len` bytes.
pub open spec fn u32_chunks_result(n_words: nat, dest_len: nat) -> (nat, nat) {
    let filled = chunk_fill_len(n_words, 4, dest_len);
    (words_for_bytes(filled, 4), filled)
}

/// The `(consumed, filled)` pair of `fill_via_u64_chunks` for a source of
/// `n_words` words and a destination of `dest_len` bytes.
pub open spec fn u64_chunks_result(n_words: nat, dest_len: nat) -> (nat, nat) {
    let filled = chunk_fill_len(n_words, 8, dest_len);
    (words_for_bytes(filled, 8), filled)
}

/// The destination after `fill_via_u32_chunks(src, dest)`: the encodings of the
/// consumed words cut to the filled length, then the rest of `dest` as it was.
pub open spec fn u32_chunks_output(src: Seq<u32>, dest: Seq<u8>) -> Seq<u8> {
    let (consumed, filled) = u32_chunks_result(src.len(), dest.len());
    u32s_le_bytes(src.take(consumed as int)).take(filled as int) + dest.skip(filled as int)
}

/// The destination after `fill_via_u64_chunks(src, dest)`: the encodings of the
/// consumed words cut to the filled length, then the rest of `dest` as it was.
pub open spec fn u64_chunks_output(src: Seq<u64>, dest: Seq<u8>) -> Seq<u8> {
    let (consumed, filled) = u64_chunks_result(src.len(), dest.len());
    u64s_le_bytes(src.take(consumed as int)).take(filled as int) + dest.skip(filled as int)
}

/// Implements `fill_bytes` by reading chunks from the output buffer of a
/// block-based generator.
///
/// Copies the little-endian encodings of the words of `src`, in order, into
/// `dest` until either runs out; a last word that does not fit is cut short.
/// Returns `(consumed_u32, filled_u8)`: the bytes written at the start of
/// `dest`, which may be fewer than its length, and the words used for them,
/// that is `filled_u8 / 4` rounded up. The rest of `dest` is left as it was.
pub fn fill_via_u32_chunks(src: &[u32], dest: &mut [u8]) -> (r: (usize, usize))
    ensures
        (r.0 as nat, r.1 as nat) == u32_chunks_result(src@.len(), old(dest)@.len()),
        final(dest)@ == u32_chunks_output(src@, old(dest)@),
{
    let ghost d0 = dest@;
    let filled: usize = if src.len() > dest.len() / 4 {
        dest.len()
    } else {
        src.len() * 4
    };
    let consumed: usize = filled / 4 + if filled % 4 != 0 {
        1
    } else {
        0
    };
    let mut i: usize = 0;
    while i < filled
        invariant
            i <= filled,
            filled == chunk_fill_len(src@.len(), 4, d0.len()),
            dest@.len() == d0.len(),
            forall|j: int| 0 <= j < i ==> dest@[j] == #[trigger] u32s_le_bytes(src@)[j],
            forall|j: int| i <= j < d0.len() ==> #[trigger] dest@[j] == d0[j],
        decreases filled - i,
    {
        dest[i] = u32_le_byte(src[i / 4], i % 4);
        i += 1;
    }
    proof {
        let c = words_for_bytes(filled as nat, 4);
        assert(consumed == c);
        let enc = u32s_le_bytes(src@.take(c as int));
        assert forall|j: int| 0 <= j < filled implies enc[j] == u32s_le_bytes(src@)[j] by {
            assert(j / 4 < c);
        }
        assert(dest@ =~= u32_chunks_output(src@, d0));
    }
    (consumed, filled)
}

/// Implements `fill_bytes` by reading chunks from the output buffer of a
/// block-based generator.
///
/// Copies the little-endian encodings of the words of `src`, in order, into
/// `dest` until either runs out; a last word that does not fit is cut short.
/// Returns `(consumed_u64, filled_u8)`: the bytes written at the start of
/// `dest`, which may be fewer than its length, and the words used for them,
/// that is `filled_u8 / 8` rounded up. The rest of `dest` is left as it was.
pub fn fill_via_u64_chunks(src: &[u64], dest: &mut [u8]) -> (r: (usize, usize))
    ensures
        (r.0 as nat, r.1 as nat) == u64_chunks_result(src@.len(), old(dest)@.len()),
        final(dest)@ == u64_chunks_output(src@, old(dest)@),
{
    let ghost d0 = dest@;
    let filled: usize = if src.len() > dest.len() / 8 {
        dest.len()
    } else {
        src.len() * 8
    };
    let consumed: usize = filled / 8 + if filled % 8 != 0 {
        1
    } else {
        0
    };
    let mut i: usize = 0;
    while i < filled
        invariant
            i <= filled,
            filled == chunk_fill_len(src@.len(), 8, d0.len()),
            dest@.len() == d0.len(),
            forall|j: int| 0 <= j < i ==> dest@[j] == #[trigger] u64s_le_bytes(src@)[j],
            forall|j: int| i <= j < d0.len() ==> #[trigger] dest@[j] == d0[j],
        decreases filled - i,
    {
        dest[i] = u64_le_byte(src[i / 8], i % 8);
        i += 1;
    }
    proof {
        let c = words_for_bytes(filled as nat, 8);
        assert(consumed == c);
        let enc = u64s_le_bytes(src@.take(c as int));
        assert forall|j: int| 0 <= j < filled implies enc[j] == u64s_le_bytes(src@)[j] by {
            assert(j / 8 < c);
        }
        assert(dest@ =~= u64_chunks_output(src@, d0));
    }
    (consumed, filled)
}

/// How many 64-bit words `fill_bytes_via_next` draws to fill `n` bytes: one for
/// each whole group of eight, and one more where over four bytes remain.
pub open spec fn next_fill_u64_draws(n: nat) -> nat {
    n / 8 + if n % 8 > 4 {
        1nat
    } else {
        0nat
    }
}

/// Whether `fill_bytes_via_next` draws a 32-bit word for the last bytes of a
/// buffer of `n` bytes: it does where one to four bytes remain.
pub open spec fn next_fill_uses_u32(n: nat) -> bool {
    1 <= n % 8 <= 4
}

/// The history entries of the 64-bit words `ws`, drawn in order.
pub open spec fn word64_draws(ws: Seq<u64>) -> Seq<Draw> {
    ws.map_values(|w: u64| Draw::Word64(w))
}

proof fn lemma_history_push_word64(h: Seq<Draw>, ws: Seq<u64>, w: u64)
    ensures
        (h + word64_draws(ws)).push(Draw::Word64(w)) == h + word64_draws(ws.push(w)),
{
    assert((h + word64_draws(ws)).push(Draw::Word64(w)) =~= h + word64_draws(ws.push(w)));
}

/// What `fill_bytes_via_next` draws for a buffer of `n` bytes when the 64-bit
/// words drawn are `ws` and the 32-bit word drawn, if any, is `tail`: the
/// 64-bit words in order, then the 32-bit word where one is needed.
pub open spec fn next_fill_draws(ws: Seq<u64>, tail: u32, n: nat) -> Seq<Draw> {
    word64_draws(ws) + if next_fill_uses_u32(n) {
        seq![Draw::Word32(tail)]
    } else {
        Seq::empty()
    }
}

/// What `fill_bytes_via_next` writes into a buffer of `n` bytes when the 64-bit
/// words drawn are `ws` and the 32-bit word drawn, if any, is `tail`.
pub open spec fn next_fill_output(ws: Seq<u64>, tail: u32, n: nat) -> Seq<u8> {
    if next_fill_uses_u32(n) {
        u64s_le_bytes(ws) + u32_le_bytes(tail).take((n % 8) as int)
    } else {
        u64s_le_bytes(ws).take(n as int)
    }
}

proof fn lemma_u64s_le_bytes_push(ws: Seq<u64>, w: u64)
    ensures
        u64s_le_bytes(ws.push(w)) == u64s_le_bytes(ws) + u64_le_bytes(w),
{
    let lhs = u64s_le_bytes(ws.push(w));
    let rhs = u64s_le_bytes(ws) + u64_le_bytes(w);
    assert forall|i: int| 0 <= i < lhs.len() implies lhs[i] == rhs[i] by {
        if i < 8 * ws.len() {
            assert(i / 8 < ws.len());
        } else {
            assert(i / 8 == ws.len());
            assert(i % 8 == i - 8 * ws.len());
        }
    }
    assert(lhs =~= rhs);
}

/// Writes the first `n` bytes of the little-endian encoding of `w` into `dest`
/// at `at`.
fn write_u64_le(dest: &mut [u8], at: usize, w: u64, n: usize)
    requires
        n <= 8,
        at + n <= old(dest)@.len(),
    ensures
        final(dest)@ == old(dest)@.take(at as int) + u64_le_bytes(w).take(n as int) + old(
            dest,
        )@.skip(at + n),
{
    let ghost d0 = dest@;
    assert(dest.len() == d0.len());
    let mut k: usize = 0;
    while k < n
        invariant
            k <= n <= 8,
            at + n <= d0.len() <= usize::MAX,
            dest@.len() == d0.len(),
            forall|j: int| 0 <= j < at ==> #[trigger] dest@[j] == d0[j],
            forall|j: int| at <= j < at + k ==> #[trigger] dest@[j] == u64_le_bytes(w)[j - at],
            forall|j: int| at + k <= j < d0.len() ==> #[trigger] dest@[j] == d0[j],
        decreases n - k,
    {
        dest[at + k] = u64_le_byte(w, k);
        k += 1;
    }
    assert(dest@ =~= d0.take(at as int) + u64_le_bytes(w).take(n as int) + d0.skip(at + n));
}

/// Writes the first `n` bytes of the little-endian encoding of `w` into `dest`
/// at `at`.
fn write_u32_le(dest: &mut [u8], at: usize, w: u32, n: usize)
    requires
        n <= 4,
        at + n <= old(dest)@.len(),
    ensures
        final(dest)@ == old(dest)@.take(at as int) + u32_le_bytes(w).take(n as int) + old(
            dest,
        )@.skip(at + n),
{
    let ghost d0 = dest@;
    assert(dest.len() == d0.len());
    let mut k: usize = 0;
    while k < n
        invariant
            k <= n <= 4,
            at + n <= d0.len() <= usize::MAX,
            dest@.len() == d0.len(),
            forall|j: int| 0 <= j < at ==> #[trigger] dest@[j] == d0[j],
            forall|j: int| at <= j < at + k ==> #[trigger] dest@[j] == u32_le_bytes(w)[j - at],
            forall|j: int| at + k <= j < d0.len() ==> #[trigger] dest@[j] == d0[j],
        decreases n - k,
    {
        dest[at + k] = u32_le_byte(w, k);
        k += 1;
    }
    assert(dest@ =~= d0.take(at as int) + u32_le_bytes(w).take(n as int) + d0.skip(at + n));
}

/// Implements `fill_bytes` via `next_u64` and `next_u32`, little-endian order.
///
/// Fills `dest` with the encodings of 64-bit words while at least eight bytes
/// remain. Of a remainder of five to seven bytes it fills from one more 64-bit
/// word; of one to four bytes, from one 32-bit word. Every word drawn has at
/// least one of its bytes used, and `fill_bytes` is never called.
pub fn fill_bytes_via_next<R: RngCore + ?Sized>(rng: &mut R, dest: &mut [u8])
    ensures
        final(dest)@.len() == old(dest)@.len(),
        exists|ws: Seq<u64>, tail: u32|
            #![trigger next_fill_output(ws, tail, old(dest)@.len())]
            {
                &&& ws.len() == next_fill_u64_draws(old(dest)@.len())
                &&& final(rng).history() == old(rng).history() + next_fill_draws(
                    ws,
                    tail,
                    old(dest)@.len(),
                )
                &&& final(dest)@ == next_fill_output(ws, tail, old(dest)@.len())
            },
{
    let ghost d0 = dest@;
    let ghost h0 = rng.history();
    let n = dest.len();
    let mut pos: usize = 0;
    let ghost mut ws: Seq<u64> = seq![];
    while n - pos >= 8
        invariant
            pos <= n,
            n == d0.len(),
            dest@.len() == n,
            pos == 8 * ws.len(),
            dest@.take(pos as int) == u64s_le_bytes(ws),
            rng.history() == h0 + word64_draws(ws),
        decreases n - pos,
    {
        let w = rng.next_u64();
        let ghost before = dest@;
        write_u64_le(dest, pos, w, 8);
        proof {
            lemma_u64s_le_bytes_push(ws, w);
            lemma_history_push_word64(h0, ws, w);
            assert(dest@.take(pos + 8) =~= before.take(pos as int) + u64_le_bytes(w));
            ws = ws.push(w);
        }
        pos += 8;
    }
    let left = n - pos;
    assert(pos == 8 * (n / 8) && left == n % 8);
    let ghost mut tail: u32 = 0;
    if left > 4 {
        let w = rng.next_u64();
        write_u64_le(dest, pos, w, left);
        proof {
            lemma_u64s_le_bytes_push(ws, w);
            lemma_history_push_word64(h0, ws, w);
            assert(dest@ =~= (u64s_le_bytes(ws) + u64_le_bytes(w)).take(n as int));
            ws = ws.push(w);
            assert(rng.history() =~= h0 + next_fill_draws(ws, tail, n as nat));
        }
    } else if left > 0 {
        let t = rng.next_u32();
        write_u32_le(dest, pos, t, left);
        proof {
            tail = t;
            assert(dest@ =~= u64s_le_bytes(ws) + u32_le_bytes(t).take(left as int));
            assert(rng.history() =~= h0 + next_fill_draws(ws, tail, n as nat));
        }
    } else {
        assert(dest@ =~= u64s_le_bytes(ws).take(n as int));
        assert(rng.history() =~= h0 + next_fill_draws(ws, tail, n as nat));
    }
    assert(dest@ == next_fill_output(ws, tail, n as nat));
}

/// Relies on `u32::from_ne_bytes`: the word whose encoding in the platform's
/// own byte order is `bytes`; that order is little-endian or big-endian.
#[verifier::external_body]
fn u32_from_ne_bytes(bytes: [u8; 4]) -> (r: u32)
    ensures
        r == u32_from_le(bytes@) || r == u32_from_be(bytes@),
{
    u32::from_ne_bytes(bytes)
}

/// Relies on `u64::from_ne_bytes`: the word whose encoding in the platform's
/// own byte order is `bytes`; that order is little-endian or big-endian.
#[verifier::external_body]
fn u64_from_ne_bytes(bytes: [u8; 8]) -> (r: u64)
    ensures
        r == u64_from_le(bytes@) || r == u64_from_be(bytes@),
{
    u64::from_ne_bytes(bytes)
}

/// Implements `next_u32` via `fill_bytes`: fills four bytes once and reads
/// them as a word in the platform's own byte order.
pub fn next_u32_via_fill<R: RngCore + ?Sized>(rng: &mut R) -> (r: u32)
    ensures
        exists|b: Seq<u8>|
            #![trigger u32_from_le(b)]
            {
                &&& b.len() == 4
                &&& final(rng).history() == old(rng).history().push(Draw::Bytes(b))
                &&& r == u32_from_le(b) || r == u32_from_be(b)
            },
{
    let mut buf: [u8; 4] = [0; 4];
    rng.fill_bytes(&mut buf);
    u32_from_ne_bytes(buf)
}

/// Implements `next_u64` via `fill_bytes`: fills eight bytes once and reads
/// them as a word in the platform's own byte order.
pub fn next_u64_via_fill<R: RngCore + ?Sized>(rng: &mut R) -> (r: u64)
    ensures
        exists|b: Seq<u8>|
            #![trigger u64_from_le(b)]
            {
                &&& b.len() == 8
                &&& final(rng).history() == old(rng).history().push(Draw::Bytes(b))
                &&& r == u64_from_le(b) || r == u64_from_be(b)
            },
{
    let mut buf: [u8; 8] = [0; 8];
    rng.fill_bytes(&mut buf);
    u64_from_ne_bytes(buf)
}

/// Filling from the same words into two destinations of the same length gives
/// the same `(consumed, filled)` pair and the same bytes in the filled part.
pub proof fn lemma_u32_chunks_deterministic(src: Seq<u32>, d1: Seq<u8>, d2: Seq<u8>)
    requires
        d1.len() == d2.len(),
    ensures
        u32_chunks_result(src.len(), d1.len()) == u32_chunks_result(src.len(), d2.len()),
        u32_chunks_output(src, d1).take(u32_chunks_result(src.len(), d1.len()).1 as int)
            == u32_chunks_output(src, d2).take(u32_chunks_result(src.len(), d2.len()).1 as int),
{
    let f = u32_chunks_result(src.len(), d1.len()).1 as int;
    assert(u32_chunks_output(src, d1).take(f) =~= u32_chunks_output(src, d2).take(f));
}

/// Filling from the same words into two destinations of the same length gives
/// the same `(consumed, filled)` pair and the same bytes in the filled part.
pub proof fn lemma_u64_chunks_deterministic(src: Seq<u64>, d1: Seq<u8>, d2: Seq<u8>)
    requires
        d1.len() == d2.len(),
    ensures
        u64_chunks_result(src.len(), d1.len()) == u64_chunks_result(src.len(), d2.len()),
        u64_chunks_output(src, d1).take(u64_chunks_result(src.len(), d1.len()).1 as int)
            == u64_chunks_output(src, d2).take(u64_chunks_result(src.len(), d2.len()).1 as int),
{
    let f = u64_chunks_result(src.len(), d1.len()).1 as int;
    assert(u64_chunks_output(src, d1).take(f) =~= u64_chunks_output(src, d2).take(f));
}

/// An empty destination is filled with nothing: the result is `(0, 0)` and the
/// destination stays as it is, whatever the source.
pub proof fn lemma_chunks_empty_dest(src32: Seq<u32>, src64: Seq<u64>, dest: Seq<u8>)
    requires
        dest.len() == 0,
    ensures
        u32_chunks_result(src32.len(), dest.len()) == (0nat, 0nat),
        u64_chunks_result(src64.len(), dest.len()) == (0nat, 0nat),
        u32_chunks_output(src32, dest) == dest,
        u64_chunks_output(src64, dest) == dest,
{
    assert(u32_chunks_output(src32, dest) =~= dest);
    assert(u64_chunks_output(src64, dest) =~= dest);
}

/// What `fill_bytes_via_next` writes depends on the words drawn and the
/// buffer's length alone: two fills of `n` bytes that drew the same words
/// write the same bytes.
pub proof fn lemma_next_fill_determined(ws1: Seq<u64>, t1: u32, ws2: Seq<u64>, t2: u32, n: nat)
    requires
        ws1.len() == next_fill_u64_draws(n),
        ws2.len() == next_fill_u64_draws(n),
        next_fill_draws(ws1, t1, n) == next_fill_draws(ws2, t2, n),
    ensures
        next_fill_output(ws1, t1, n) == next_fill_output(ws2, t2, n),
{
    let d1 = next_fill_draws(ws1, t1, n);
    let d2 = next_fill_draws(ws2, t2, n);
    assert forall|i: int| 0 <= i < ws1.len() implies ws1[i] == ws2[i] by {
        assert(d1[i] == Draw::Word64(ws1[i]));
        assert(d2[i] == Draw::Word64(ws2[i]));
    }
    assert(ws1 =~= ws2);
    if next_fill_uses_u32(n) {
        assert(d1[ws1.len() as int] == Draw::Word32(t1));
        assert(d2[ws2.len() as int] == Draw::Word32(t2));
    }
}

/// A fill of a whole number of 64-bit words is a prefix of any longer fill
/// that drew the same words first.
pub proof fn lemma_next_fill_extends(ws1: Seq<u64>, t1: u32, n1: nat, ws2: Seq<u64>, t2: u32, n2: nat)
    requires
        n1 % 8 == 0,
        n1 <= n2,
        ws1.len() == next_fill_u64_draws(n1),
        ws2.len() == next_fill_u64_draws(n2),
        ws2.take(ws1.len() as int) == ws1,
    ensures
        next_fill_output(ws2, t2, n2).take(n1 as int) == next_fill_output(ws1, t1, n1),
{
    let o1 = next_fill_output(ws1, t1, n1);
    let o2 = next_fill_output(ws2, t2, n2);
    assert(8 * ws2.len() >= 8 * ws1.len());
    assert forall|i: int| 0 <= i < n1 implies o2[i] == o1[i] by {
        assert(i / 8 < ws1.len());
        assert(ws2[i / 8] == ws1[i / 8]);
    }
    assert(o2.take(n1 as int) =~= o1);
}

} // verus!
