//! Mathematical model of the byte encodings of words.
use vstd::prelude::*;

verus! {

/// The four bytes of `w`, least-significant first.
pub open spec fn u32_le_bytes(w: u32) -> Seq<u8> {
    seq![w as u8, (w >> 8u32) as u8, (w >> 16u32) as u8, (w >> 24u32) as u8]
}

/// The eight bytes of `w`, least-significant first.
pub open spec fn u64_le_bytes(w: u64) -> Seq<u8> {
    seq![
        w as u8,
        (w >> 8u64) as u8,
        (w >> 16u64) as u8,
        (w >> 24u64) as u8,
        (w >> 32u64) as u8,
        (w >> 40u64) as u8,
        (w >> 48u64) as u8,
        (w >> 56u64) as u8,
    ]
}

/// The little-endian encodings of the words of `ws`, one after another.
pub open spec fn u32s_le_bytes(ws: Seq<u32>) -> Seq<u8> {
    Seq::new(4 * ws.len(), |i: int| u32_le_bytes(ws[i / 4])[i % 4])
}

/// The little-endian encodings of the words of `ws`, one after another.
pub open spec fn u64s_le_bytes(ws: Seq<u64>) -> Seq<u8> {
    Seq::new(8 * ws.len(), |i: int| u64_le_bytes(ws[i / 8])[i % 8])
}

/// The word whose little-endian encoding is `b`.
pub open spec fn u32_from_le(b: Seq<u8>) -> u32 {
    (b[0] as u32) | ((b[1] as u32) << 8u32) | ((b[2] as u32) << 16u32) | ((b[3] as u32) << 24u32)
}

/// The word whose big-endian encoding is `b`.
pub open spec fn u32_from_be(b: Seq<u8>) -> u32 {
    (b[3] as u32) | ((b[2] as u32) << 8u32) | ((b[1] as u32) << 16u32) | ((b[0] as u32) << 24u32)
}

/// The word whose little-endian encoding is `b`.
pub open spec fn u64_from_le(b: Seq<u8>) -> u64 {
    (b[0] as u64) | ((b[1] as u64) << 8u64) | ((b[2] as u64) << 16u64) | ((b[3] as u64) << 24u64)
        | ((b[4] as u64) << 32u64) | ((b[5] as u64) << 40u64) | ((b[6] as u64) << 48u64)
        | ((b[7] as u64) << 56u64)
}

/// The word whose big-endian encoding is `b`.
pub open spec fn u64_from_be(b: Seq<u8>) -> u64 {
    (b[7] as u64) | ((b[6] as u64) << 8u64) | ((b[5] as u64) << 16u64) | ((b[4] as u64) << 24u64)
        | ((b[3] as u64) << 32u64) | ((b[2] as u64) << 40u64) | ((b[1] as u64) << 48u64)
        | ((b[0] as u64) << 56u64)
}

/// Byte `k` (counting from the least significant) of `w`.
pub fn u32_le_byte(w: u32, k: usize) -> (r: u8)
    requires
        k < 4,
    ensures
        r == u32_le_bytes(w)[k as int],
{
    if k == 0 {
        w as u8
    } else if k == 1 {
        (w >> 8u32) as u8
    } else if k == 2 {
        (w >> 16u32) as u8
    } else {
        (w >> 24u32) as u8
    }
}

/// Byte `k` (counting from the least significant) of `w`.
pub fn u64_le_byte(w: u64, k: usize) -> (r: u8)
    requires
        k < 8,
    ensures
        r == u64_le_bytes(w)[k as int],
{
    if k == 0 {
        w as u8
    } else if k == 1 {
        (w >> 8u64) as u8
    } else if k == 2 {
        (w >> 16u64) as u8
    } else if k == 3 {
        (w >> 24u64) as u8
    } else if k == 4 {
        (w >> 32u64) as u8
    } else if k == 5 {
        (w >> 40u64) as u8
    } else if k == 6 {
        (w >> 48u64) as u8
    } else {
        (w >> 56u64) as u8
    }
}

} // verus!
