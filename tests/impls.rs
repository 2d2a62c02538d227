use rand_core::impls::{
    fill_bytes_via_next, fill_via_u32_chunks, fill_via_u64_chunks, join_u32_pair,
    next_u32_via_fill, next_u64_via_fill, next_u64_via_u32,
};
use rand_core::{Draw, RngCore};
use vstd::seq::Seq;

/// A generator that counts up from a start value and records what it was asked.
struct Counter {
    state: u64,
    calls32: usize,
    calls64: usize,
    fills: usize,
}

impl Counter {
    fn new(start: u64) -> Counter {
        Counter { state: start, calls32: 0, calls64: 0, fills: 0 }
    }
}

impl RngCore for Counter {
    // The history is a proof-time model; at run time it holds nothing.
    fn history(&self) -> Seq<Draw> {
        Seq::empty()
    }

    fn next_u32(&mut self) -> u32 {
        self.calls32 += 1;
        let r = self.state as u32;
        self.state += 1;
        r
    }

    fn next_u64(&mut self) -> u64 {
        self.calls64 += 1;
        let r = self.state;
        self.state += 1;
        r
    }

    fn fill_bytes(&mut self, dest: &mut [u8]) {
        self.fills += 1;
        for b in dest.iter_mut() {
            *b = self.state as u8;
            self.state += 1;
        }
    }
}

/// A generator that hands out given words in order and logs every call.
struct Scripted {
    words64: Vec<u64>,
    words32: Vec<u32>,
    calls: Vec<String>,
    fill_writes: bool,
}

impl Scripted {
    fn new(words64: Vec<u64>, words32: Vec<u32>) -> Scripted {
        Scripted { words64, words32, calls: Vec::new(), fill_writes: true }
    }
}

impl RngCore for Scripted {
    // The history is a proof-time model; at run time it holds nothing.
    fn history(&self) -> Seq<Draw> {
        Seq::empty()
    }

    fn next_u32(&mut self) -> u32 {
        self.calls.push("u32".to_string());
        self.words32.remove(0)
    }

    fn next_u64(&mut self) -> u64 {
        self.calls.push("u64".to_string());
        self.words64.remove(0)
    }

    fn fill_bytes(&mut self, dest: &mut [u8]) {
        self.calls.push(format!("fill{}", dest.len()));
        if self.fill_writes {
            for (i, b) in dest.iter_mut().enumerate() {
                *b = 0xA0 + i as u8;
            }
        }
    }
}

#[test]
fn test_fill_via_u32_chunks() {
    let src = [1, 2, 3];
    let mut dst = [0u8; 11];
    assert_eq!(fill_via_u32_chunks(&src, &mut dst), (3, 11));
    assert_eq!(dst, [1, 0, 0, 0, 2, 0, 0, 0, 3, 0, 0]);

    let mut dst = [0u8; 13];
    assert_eq!(fill_via_u32_chunks(&src, &mut dst), (3, 12));
    assert_eq!(dst, [1, 0, 0, 0, 2, 0, 0, 0, 3, 0, 0, 0, 0]);

    let mut dst = [0u8; 5];
    assert_eq!(fill_via_u32_chunks(&src, &mut dst), (2, 5));
    assert_eq!(dst, [1, 0, 0, 0, 2]);
}

#[test]
fn test_fill_via_u64_chunks() {
    let src = [1, 2];
    let mut dst = [0u8; 11];
    assert_eq!(fill_via_u64_chunks(&src, &mut dst), (2, 11));
    assert_eq!(dst, [1, 0, 0, 0, 0, 0, 0, 0, 2, 0, 0]);

    let mut dst = [0u8; 17];
    assert_eq!(fill_via_u64_chunks(&src, &mut dst), (2, 16));
    assert_eq!(dst, [1, 0, 0, 0, 0, 0, 0, 0, 2, 0, 0, 0, 0, 0, 0, 0, 0]);

    let mut dst = [0u8; 5];
    assert_eq!(fill_via_u64_chunks(&src, &mut dst), (1, 5));
    assert_eq!(dst, [1, 0, 0, 0, 0]);
}

#[test]
fn chunks_keep_bytes_past_filled() {
    let src = [0x0403_0201u32];
    let mut dst = [0xAAu8; 7];
    assert_eq!(fill_via_u32_chunks(&src, &mut dst), (1, 4));
    assert_eq!(dst, [1, 2, 3, 4, 0xAA, 0xAA, 0xAA]);

    let src = [0x0807_0605_0403_0201u64];
    let mut dst = [0xAAu8; 10];
    assert_eq!(fill_via_u64_chunks(&src, &mut dst), (1, 8));
    assert_eq!(dst, [1, 2, 3, 4, 5, 6, 7, 8, 0xAA, 0xAA]);
}

#[test]
fn chunks_little_endian_partial_word() {
    let src = [0x0403_0201u32, 0x0807_0605];
    let mut dst = [0u8; 6];
    assert_eq!(fill_via_u32_chunks(&src, &mut dst), (2, 6));
    assert_eq!(dst, [1, 2, 3, 4, 5, 6]);

    let src = [0x0807_0605_0403_0201u64, 0x100f_0e0d_0c0b_0a09];
    let mut dst = [0u8; 11];
    assert_eq!(fill_via_u64_chunks(&src, &mut dst), (2, 11));
    assert_eq!(dst, [1, 2, 3, 4, 5, 6, 7, 8, 9, 10, 11]);
}

#[test]
fn chunks_empty_dest() {
    let mut dst: [u8; 0] = [];
    assert_eq!(fill_via_u32_chunks(&[1, 2, 3], &mut dst), (0, 0));
    assert_eq!(fill_via_u64_chunks(&[1, 2], &mut dst), (0, 0));
}

#[test]
fn chunks_empty_source() {
    let mut dst = [9u8; 3];
    assert_eq!(fill_via_u32_chunks(&[], &mut dst), (0, 0));
    assert_eq!(fill_via_u64_chunks(&[], &mut dst), (0, 0));
    assert_eq!(dst, [9, 9, 9]);
}

#[test]
fn chunks_repeat_calls_agree() {
    let src = [7u32, 0xdead_beef, 42];
    let mut a = [0u8; 9];
    let mut b = [0xFFu8; 9];
    let ra = fill_via_u32_chunks(&src, &mut a);
    let rb = fill_via_u32_chunks(&src, &mut b);
    assert_eq!(ra, rb);
    assert_eq!(a[..ra.1], b[..rb.1]);

    let src = [7u64, 0xdead_beef_0123_4567];
    let mut a = [0u8; 13];
    let mut b = [0x55u8; 13];
    let ra = fill_via_u64_chunks(&src, &mut a);
    let rb = fill_via_u64_chunks(&src, &mut b);
    assert_eq!(ra, rb);
    assert_eq!(a[..ra.1], b[..rb.1]);
}

#[test]
fn join_u32_pair_low_half_first() {
    assert_eq!(join_u32_pair(1, 2), 0x0000_0002_0000_0001);
    assert_eq!(join_u32_pair(0xffff_ffff, 0), 0xffff_ffff);
    assert_eq!(join_u32_pair(0, 0xffff_ffff), 0xffff_ffff_0000_0000);
}

#[test]
fn next_u64_via_u32_first_word_is_low() {
    let mut rng = Counter::new(5);
    assert_eq!(next_u64_via_u32(&mut rng), (6u64 << 32) | 5);
    assert_eq!(rng.calls32, 2);
    assert_eq!(rng.calls64, 0);
}

#[test]
fn fill_bytes_via_next_lengths() {
    for n in 0..40usize {
        let mut rng = Counter::new(0x1122_3344_5566_7700);
        let mut dest = vec![0xEEu8; n];
        fill_bytes_via_next(&mut rng, &mut dest);
        let r = n % 8;
        let expect64 = n / 8 + if r > 4 { 1 } else { 0 };
        let expect32 = if r >= 1 && r <= 4 { 1 } else { 0 };
        assert_eq!(rng.calls64, expect64);
        assert_eq!(rng.calls32, expect32);
        let mut expected = Vec::new();
        let mut w = 0x1122_3344_5566_7700u64;
        for _ in 0..expect64 {
            expected.extend_from_slice(&w.to_le_bytes());
            w += 1;
        }
        if expect32 == 1 {
            expected.extend_from_slice(&(w as u32).to_le_bytes());
        }
        expected.truncate(n);
        assert_eq!(dest, expected);
    }
}

#[test]
fn fill_bytes_via_next_twelve_bytes() {
    let mut rng = Counter::new(0x0807_0605_0403_0201);
    let mut dest = [0u8; 12];
    fill_bytes_via_next(&mut rng, &mut dest);
    assert_eq!(dest, [1, 2, 3, 4, 5, 6, 7, 8, 2, 2, 3, 4]);
}

#[test]
fn next_words_via_fill_native_order() {
    let mut rng = Counter::new(1);
    assert_eq!(next_u32_via_fill(&mut rng), u32::from_ne_bytes([1, 2, 3, 4]));
    assert_eq!(rng.fills, 1);
    let mut rng = Counter::new(1);
    assert_eq!(next_u64_via_fill(&mut rng), u64::from_ne_bytes([1, 2, 3, 4, 5, 6, 7, 8]));
    assert_eq!(rng.fills, 1);
}

#[test]
fn next_u32_via_fill_reads_filled_bytes() {
    let mut rng = Counter::new(0x10);
    let r = next_u32_via_fill(&mut rng);
    assert!(r == 0x1312_1110 || r == 0x1011_1213);
    let r = next_u64_via_fill(&mut rng);
    assert!(r == 0x1b1a_1918_1716_1514 || r == 0x1415_1617_1819_1a1b);
}

#[test]
fn fill_bytes_via_next_five_bytes_one_u64() {
    let mut rng = Scripted::new(vec![0x0807_0605_0403_0201], vec![]);
    let mut dest = [0u8; 5];
    fill_bytes_via_next(&mut rng, &mut dest);
    assert_eq!(dest, [1, 2, 3, 4, 5]);
    assert_eq!(rng.calls, vec!["u64"]);
}

#[test]
fn fill_bytes_via_next_u32_drawn_last() {
    let mut rng = Scripted::new(vec![0x0807_0605_0403_0201], vec![0x0c0b_0a09]);
    let mut dest = [0u8; 12];
    fill_bytes_via_next(&mut rng, &mut dest);
    assert_eq!(dest, [1, 2, 3, 4, 5, 6, 7, 8, 9, 10, 11, 12]);
    assert_eq!(rng.calls, vec!["u64", "u32"]);
}

#[test]
fn fill_bytes_via_next_empty_draws_nothing() {
    let mut rng = Scripted::new(vec![], vec![]);
    let mut dest: [u8; 0] = [];
    fill_bytes_via_next(&mut rng, &mut dest);
    assert!(rng.calls.is_empty());
}

#[test]
fn fill_bytes_via_next_ignores_old_contents() {
    let words = vec![0x1111_2222_3333_4444u64, 0x5555_6666_7777_8888];
    let mut a = [0u8; 14];
    let mut b = [0xFFu8; 14];
    fill_bytes_via_next(&mut Scripted::new(words.clone(), vec![]), &mut a);
    fill_bytes_via_next(&mut Scripted::new(words, vec![]), &mut b);
    assert_eq!(a, b);
}

#[test]
fn fill_bytes_via_next_longer_extends_aligned() {
    let words = vec![0x0102_0304_0506_0708u64, 9];
    let mut short = [0u8; 8];
    let mut long = [0u8; 19];
    fill_bytes_via_next(&mut Scripted::new(words.clone(), vec![]), &mut short);
    fill_bytes_via_next(&mut Scripted::new(words, vec![10]), &mut long);
    assert_eq!(long[..8], short);
}

#[test]
fn next_u64_via_u32_two_u32_calls_only() {
    let mut rng = Scripted::new(vec![], vec![0xdead_beef, 0x0123_4567]);
    assert_eq!(next_u64_via_u32(&mut rng), 0x0123_4567_dead_beef);
    assert_eq!(rng.calls, vec!["u32", "u32"]);
}

#[test]
fn next_words_via_fill_one_fill_of_word_size() {
    let mut rng = Scripted::new(vec![], vec![]);
    assert_eq!(next_u32_via_fill(&mut rng), u32::from_ne_bytes([0xA0, 0xA1, 0xA2, 0xA3]));
    assert_eq!(
        next_u64_via_fill(&mut rng),
        u64::from_ne_bytes([0xA0, 0xA1, 0xA2, 0xA3, 0xA4, 0xA5, 0xA6, 0xA7])
    );
    assert_eq!(rng.calls, vec!["fill4", "fill8"]);
}

#[test]
fn next_words_via_fill_zero_when_nothing_written() {
    let mut rng = Scripted::new(vec![], vec![]);
    rng.fill_writes = false;
    assert_eq!(next_u32_via_fill(&mut rng), 0);
    assert_eq!(next_u64_via_fill(&mut rng), 0);
}
