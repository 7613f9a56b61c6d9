use nanorand::{BufferedRng, ChaCha, Rng, WyRand};

#[test]
fn leftover_bytes_are_kept() {
    let mut thingy = [0u8; 5];
    let mut rng = BufferedRng::new(WyRand::new());
    rng.fill(&mut thingy);
    // As WyRand generates 8 bytes of output, and our target is only 5 bytes,
    // 3 bytes will remain in the buffer.
    assert_eq!(rng.buffered(), 3);
}

#[test]
fn no_byte_is_lost_or_handed_out_twice() {
    let mut raw = WyRand::new_seed(21);
    let mut stream = Vec::new();
    for _ in 0..100 {
        stream.extend_from_slice(&raw.rand());
    }
    let mut rng = BufferedRng::new(WyRand::new_seed(21));
    let mut got = Vec::new();
    for n in [0usize, 1, 5, 3, 8, 16, 7, 0, 9, 64, 2, 1] {
        let mut out = vec![0u8; n];
        rng.fill(&mut out);
        got.extend_from_slice(&out);
        // handed out + left over == emitted, in whole blocks
        assert_eq!((got.len() + rng.buffered()) % 8, 0);
        assert!(rng.buffered() < 8);
    }
    assert_eq!(got[..], stream[..got.len()]);
    let mut rest = vec![0u8; rng.buffered()];
    let left = rng.buffered();
    rng.fill(&mut rest);
    assert_eq!(rng.buffered(), 0);
    assert_eq!(rest[..], stream[got.len()..got.len() + left]);
}

#[test]
fn wide_blocks_are_used_up_before_the_next_is_drawn() {
    let mut raw = ChaCha::new_key(20, [4u8; 32], [4u8; 16]).unwrap();
    let first = raw.rand();
    let second = raw.rand();
    let mut rng = BufferedRng::new(ChaCha::new_key(20, [4u8; 32], [4u8; 16]).unwrap());
    assert_eq!(rng.buffered(), 0);
    let mut a = [0u8; 10];
    rng.fill(&mut a);
    assert_eq!(a, first[..10]);
    assert_eq!(rng.buffered(), 54);
    let mut b = [0u8; 54];
    rng.fill(&mut b);
    assert_eq!(b, first[10..]);
    assert_eq!(rng.buffered(), 0);
    let mut c = [0u8; 64];
    rng.fill(&mut c);
    assert_eq!(c, second);
    assert_eq!(rng.buffered(), 0);
    let mut d = [0u8; 130];
    rng.fill(&mut d);
    assert_eq!(rng.buffered(), 62);
    let mut e = [0u8; 0];
    rng.fill(&mut e);
    assert_eq!(rng.buffered(), 62);
}

#[test]
fn queue_is_handed_over_whole() {
    let mut raw = WyRand::new_seed(2);
    let block = raw.rand();
    let mut rng = BufferedRng::new(WyRand::new_seed(2));
    let mut sink = vec![0xee];
    assert_eq!(rng.read_to_end(&mut sink), 0);
    assert_eq!(sink, vec![0xee]);
    let mut out = [0u8; 2];
    rng.fill(&mut out);
    assert_eq!(rng.read_to_end(&mut sink), 6);
    assert_eq!(sink[0], 0xee);
    assert_eq!(sink[1..], block[2..]);
    assert_eq!(rng.buffered(), 0);
    let mut next = [0u8; 8];
    rng.fill(&mut next);
    assert_eq!(next, raw.rand());
}
