use dnac::cipher::DEFAULT_ROUNDS;
use dnac::dna::{binary_to_DNA, decode_symbols_to_bytes, encode_bytes_to_symbols, DNA};
use dnac::{CipherError, DNAC};
use rand::Rng;

fn symbols(bytes: &[u8]) -> Vec<DNA> {
    bytes.iter().flat_map(binary_to_DNA).collect::<Vec<DNA>>()
}

fn sample_bytes(n: usize, seed: u8) -> Vec<u8> {
    (0..n).map(|i| (i as u8).wrapping_mul(37).wrapping_add(seed)).collect()
}

#[test]
fn test_encrypt_decrypt() {
    let random_bytes = rand::thread_rng().gen::<[u8; 32]>();
    let random_msg = rand::thread_rng().gen::<[u8; 16]>();
    let key = random_bytes
        .iter()
        .flat_map(binary_to_DNA)
        .collect::<Vec<DNA>>();
    let msg = random_msg
        .iter()
        .flat_map(binary_to_DNA)
        .collect::<Vec<DNA>>();
    let cipher = DNAC::new_default(key).unwrap();
    assert_eq!(msg, cipher.decrypt(cipher.encrypt(msg.clone())).unwrap());
}

#[test]
fn zero_key_zero_message_is_scrambled_and_restored() {
    let key = symbols(&[0u8; 32]);
    let msg = symbols(&[0u8; 16]);
    assert_eq!(msg.len(), 64);
    let cipher = DNAC::new_default(key).unwrap();
    let ct = cipher.encrypt(msg.clone());
    assert_eq!(ct.len(), 64);
    assert_ne!(ct, msg);
    let pt = cipher.decrypt(ct).unwrap();
    assert_eq!(decode_symbols_to_bytes(&pt), vec![0u8; 16]);
}

#[test]
fn round_trip_over_several_key_lengths() {
    for (key_len, seed) in [(2usize, 1u8), (4, 2), (6, 3), (10, 4), (32, 5), (64, 6), (80, 7)] {
        let key = symbols(&sample_bytes(key_len, seed));
        let msg = symbols(&sample_bytes(48, seed.wrapping_mul(11)));
        let rounds = if key_len < 4 { key_len / 2 } else { DEFAULT_ROUNDS };
        let cipher = DNAC::new(key, rounds).unwrap();
        let ct = cipher.encrypt(msg.clone());
        assert_eq!(ct.len(), msg.len());
        assert_ne!(ct, msg);
        assert_eq!(cipher.decrypt(ct).unwrap(), msg);
    }
}

#[test]
fn partial_block_is_padded_with_a() {
    let cipher = DNAC::new_default(symbols(&sample_bytes(32, 9))).unwrap();
    let msg = symbols(&sample_bytes(25, 3));
    assert_eq!(msg.len(), 100);
    let ct = cipher.encrypt(msg.clone());
    assert_eq!(ct.len(), 128);
    let pt = cipher.decrypt(ct).unwrap();
    assert_eq!(pt[..100].to_vec(), msg);
    assert!(pt[100..].iter().all(|d| *d == DNA::A));
}

#[test]
fn empty_input_gives_empty_output() {
    let cipher = DNAC::new_default(symbols(&[7u8; 32])).unwrap();
    assert!(cipher.encrypt(Vec::new()).is_empty());
    assert_eq!(cipher.decrypt(Vec::new()).unwrap(), Vec::<DNA>::new());
}

#[test]
fn decrypt_refuses_partial_blocks() {
    let cipher = DNAC::new_default(symbols(&[7u8; 32])).unwrap();
    for len in [1usize, 4, 63, 65, 100, 127] {
        assert_eq!(
            cipher.decrypt(vec![DNA::C; len]),
            Err(CipherError::InvalidCiphertextLength)
        );
    }
    assert!(CipherError::InvalidCiphertextLength.message().contains("64"));
}

#[test]
fn short_keys_are_refused() {
    assert_eq!(
        DNAC::new_default(vec![DNA::G; 7]).err(),
        Some(CipherError::InvalidKeyLength)
    );
    assert_eq!(DNAC::new(Vec::new(), 0).err(), Some(CipherError::InvalidKeyLength));
    assert_eq!(DNAC::new(vec![DNA::T; 7], 0).err(), Some(CipherError::InvalidKeyLength));
    assert_eq!(
        CipherError::InvalidKeyLength.message(),
        "illegal key, it should hold at least 8 symbols"
    );
    assert_eq!(
        CipherError::InvalidCiphertextLength.message(),
        "illegal input, length should be a multiple of 64"
    );
}

#[test]
fn keys_of_eight_to_fifteen_symbols_expand() {
    for len in 8usize..16 {
        let key: Vec<DNA> = symbols(&sample_bytes(4, len as u8))[..len].to_vec();
        let cipher = DNAC::new_default(key.clone()).unwrap();
        let keys = cipher.round_keys();
        assert_eq!(keys.len(), DEFAULT_ROUNDS);
        assert_eq!(keys[0].to_vec(), key[..8].to_vec());
        let msg = symbols(&sample_bytes(32, 3));
        let ct = cipher.encrypt(msg.clone());
        assert_ne!(ct, msg);
        assert_eq!(cipher.decrypt(ct).unwrap(), msg);
    }
}

#[test]
fn expansion_of_an_eight_symbol_all_a_key() {
    // Two key words, period one: words 2 and 3 are A^4 ^ S(A^4) ^ rc(0x01) = GCAC,
    // reading the key cyclically for the word of the previous group.
    let cipher = DNAC::new(vec![DNA::A; 8], 2).unwrap();
    let keys = cipher.round_keys();
    assert_eq!(keys[0], [DNA::A; 8]);
    assert_eq!(
        keys[1],
        [DNA::G, DNA::C, DNA::A, DNA::C, DNA::G, DNA::C, DNA::A, DNA::C]
    );
}

#[test]
fn keys_with_odd_word_counts_expand() {
    for len in [24usize, 40, 56, 20] {
        let key: Vec<DNA> = symbols(&sample_bytes(16, 9))[..len].to_vec();
        let cipher = DNAC::new_default(key.clone()).unwrap();
        let keys = cipher.round_keys();
        assert_eq!(keys.len(), DEFAULT_ROUNDS);
        for c in 0..len / 8 {
            assert_eq!(keys[c].to_vec(), key[8 * c..8 * c + 8].to_vec());
        }
        let msg = symbols(&sample_bytes(64, 1));
        assert_eq!(cipher.decrypt(cipher.encrypt(msg.clone())).unwrap(), msg);
    }
}

#[test]
fn same_key_gives_same_engine() {
    let key = symbols(&sample_bytes(32, 21));
    let a = DNAC::new_default(key.clone()).unwrap();
    let b = DNAC::new_default(key).unwrap();
    assert_eq!(a.round_keys(), b.round_keys());
    assert_eq!(a.round_keys().len(), DEFAULT_ROUNDS);
    let msg = symbols(&sample_bytes(40, 2));
    assert_eq!(a.encrypt(msg.clone()), b.encrypt(msg));
}

#[test]
fn long_key_supplies_round_keys_directly() {
    let key = symbols(&sample_bytes(6, 40));
    let cipher = DNAC::new(key.clone(), 3).unwrap();
    let expected: Vec<[DNA; 8]> = key.chunks_exact(8).map(|c| c.try_into().unwrap()).collect();
    assert_eq!(cipher.round_keys(), expected);
    let cipher = DNAC::new(key.clone(), 2).unwrap();
    assert_eq!(cipher.round_keys(), expected[..2].to_vec());
}

#[test]
fn expansion_of_an_all_a_key() {
    // Words 4..8 are A^4 ^ S(A^4) ^ rc(0x01) = GCAT ^ AAAG = GCAC.
    let cipher = DNAC::new(vec![DNA::A; 16], 3).unwrap();
    let keys = cipher.round_keys();
    assert_eq!(keys[0], [DNA::A; 8]);
    assert_eq!(keys[1], [DNA::A; 8]);
    assert_eq!(
        keys[2],
        [DNA::G, DNA::C, DNA::A, DNA::C, DNA::G, DNA::C, DNA::A, DNA::C]
    );
}

#[test]
fn long_keys_take_the_substituted_branch() {
    // 26 chunks of key: the expansion's fifth group of each period substitutes.
    let key = symbols(&sample_bytes(104, 77));
    let cipher = DNAC::new_default(key).unwrap();
    assert_eq!(cipher.round_keys().len(), DEFAULT_ROUNDS);
    let msg = symbols(&sample_bytes(64, 5));
    let ct = cipher.encrypt(msg.clone());
    assert_eq!(cipher.decrypt(ct).unwrap(), msg);
}

#[test]
fn zero_rounds_only_pad() {
    let cipher = DNAC::new(symbols(&[1u8, 2]), 0).unwrap();
    let msg = symbols(&[0xffu8; 3]);
    let ct = cipher.encrypt(msg.clone());
    assert_eq!(ct[..12].to_vec(), msg);
    assert_eq!(ct.len(), 64);
}

#[test]
fn byte_sequence_conversions() {
    let bytes = vec![0x1bu8, 0x00, 0xff, 0x80];
    let s = encode_bytes_to_symbols(&bytes);
    assert_eq!(
        s[..4].to_vec(),
        vec![DNA::A, DNA::G, DNA::C, DNA::T]
    );
    assert_eq!(s[12..].to_vec(), vec![DNA::C, DNA::A, DNA::A, DNA::A]);
    assert_eq!(decode_symbols_to_bytes(&s), bytes);
    let mut longer = s.clone();
    longer.push(DNA::T);
    assert_eq!(decode_symbols_to_bytes(&longer), bytes);
}
