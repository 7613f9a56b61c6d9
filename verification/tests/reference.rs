use c2_chacha::guts::generic_array::GenericArray;
use c2_chacha::stream_cipher::{NewStreamCipher, SyncStreamCipher};
use c2_chacha::Ietf;
use nanorand::crypto::chacha::{chacha_init, chacha_quarter_round};
use nanorand::{ChaCha, Rng};

fn reference_keystream(key: &[u8; 32], nonce: &[u8; 12]) -> [u8; 256] {
    let mut state = Ietf::new(GenericArray::from_slice(key), GenericArray::from_slice(nonce));
    let mut keystream = [0u8; 256];
    state.apply_keystream(&mut keystream);
    keystream
}

fn our_keystream(key: [u8; 32], nonce: [u8; 16]) -> Vec<u8> {
    let mut rng = ChaCha::new_key(20, key, nonce).unwrap();
    let mut keystream = Vec::new();
    while keystream.len() < 256 {
        keystream.extend_from_slice(&rng.rand());
    }
    keystream
}

/// Twenty rounds over `input` with the quarter round of the library, the
/// second four quarter rounds of each double round on the words of `second`.
fn block_with(input: [u32; 16], second: [[usize; 4]; 4]) -> [u32; 16] {
    let mut x = input;
    for _ in 0..10 {
        chacha_quarter_round(&mut x, 0, 4, 8, 12);
        chacha_quarter_round(&mut x, 1, 5, 9, 13);
        chacha_quarter_round(&mut x, 2, 6, 10, 14);
        chacha_quarter_round(&mut x, 3, 7, 11, 15);
        for q in second {
            chacha_quarter_round(&mut x, q[0], q[1], q[2], q[3]);
        }
    }
    for i in 0..16 {
        x[i] = x[i].wrapping_add(input[i]);
    }
    x
}

fn keystream_with(constants: &[u8; 16], second: [[usize; 4]; 4]) -> Vec<u8> {
    let mut state = chacha_init([0u8; 32], [0u8; 16]);
    for i in 0..4 {
        state[i] = u32::from_le_bytes([
            constants[4 * i],
            constants[4 * i + 1],
            constants[4 * i + 2],
            constants[4 * i + 3],
        ]);
    }
    let mut keystream = Vec::new();
    while keystream.len() < 256 {
        for word in block_with(state, second) {
            keystream.extend_from_slice(&word.to_le_bytes());
        }
        state[12] += 1;
    }
    keystream
}

const OURS: [[usize; 4]; 4] = [[0, 5, 10, 15], [1, 6, 11, 14], [2, 7, 8, 13], [3, 4, 9, 12]];
const DIAGONALS: [[usize; 4]; 4] = [[0, 5, 10, 15], [1, 6, 11, 12], [2, 7, 8, 13], [3, 4, 9, 14]];

/// The block function of this crate pairs the words of its second four
/// quarter rounds otherwise than ChaCha20 does, and starts from other
/// constant words: its key stream is one of its own.
#[test]
fn keystream_is_not_that_of_chacha20() {
    let reference = reference_keystream(&[0u8; 32], &[0u8; 12]);
    let ours = our_keystream([0u8; 32], [0u8; 16]);
    assert_eq!(ours.len(), reference.len());
    assert_ne!(ours, reference.to_vec());
    assert_eq!(ours, keystream_with(b"expand 16-byte k", OURS));
}

/// With the constant words and the diagonals of ChaCha20, the same quarter
/// round, state layout and counter give the key stream of ChaCha20.
#[test]
fn quarter_round_and_layout_are_those_of_chacha20() {
    let reference = reference_keystream(&[0u8; 32], &[0u8; 12]);
    assert_eq!(keystream_with(b"expand 32-byte k", DIAGONALS), reference.to_vec());
    assert_ne!(keystream_with(b"expand 32-byte k", OURS), reference.to_vec());
    assert_ne!(keystream_with(b"expand 16-byte k", DIAGONALS), reference.to_vec());
}
