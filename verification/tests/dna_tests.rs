use kitties::dna::{combine_dna, combine_dna_bytes, fresh_dna};

#[test]
fn combine_dna_selects_bits() {
    // Selector bit 1 picks the bit from dna1, selector bit 0 from dna2.
    assert_eq!(combine_dna(0b11110000, 0b11001100, 0b10101010), 0b11100100);
}

#[test]
fn combine_dna_selector_extremes() {
    let samples: [(u8, u8); 4] = [(0x00, 0xff), (0xf0, 0x0f), (0x5a, 0xa5), (0x13, 0x37)];
    for (a, b) in samples {
        assert_eq!(combine_dna(a, b, 0x00), b);
        assert_eq!(combine_dna(a, b, 0xff), a);
    }
}

#[test]
fn combine_dna_bytes_combines_each_byte() {
    let dna1: Vec<u8> = (0..16u8).map(|i| i * 17).collect();
    let dna2: Vec<u8> = (0..16u8).map(|i| 255 - i).collect();
    let selector: Vec<u8> = (0..16u8).map(|i| i * 31).collect();
    let child = combine_dna_bytes(&dna1, &dna2, &selector);
    assert_eq!(child.len(), 16);
    for i in 0..16 {
        assert_eq!(child[i], combine_dna(dna1[i], dna2[i], selector[i]));
    }
}

#[test]
fn fresh_dna_is_16_bytes_and_deterministic() {
    let seed: Vec<u8> = vec![9; 32];
    let first = fresh_dna(&seed, 42, 0);
    let second = fresh_dna(&seed, 42, 0);
    assert_eq!(first.len(), 16);
    assert_eq!(first, second);
}

#[test]
fn fresh_dna_differs_per_nonce_and_account() {
    let seed: Vec<u8> = vec![9; 32];
    let base = fresh_dna(&seed, 42, 0);
    assert_ne!(base, fresh_dna(&seed, 42, 1));
    assert_ne!(base, fresh_dna(&seed, 43, 0));
}

#[test]
fn fresh_dna_matches_blake2b_of_payload() {
    // The digest must be blake2b-128 of seed ++ account ++ nonce, each in
    // little-endian byte order; handing the payload back unchanged (or
    // digesting something else) would fail this.
    let seed: Vec<u8> = (0..32u8).collect();
    let account: u64 = 0x1122_3344_5566_7788;
    let nonce: u64 = 5;
    let mut payload = seed.clone();
    payload.extend_from_slice(&account.to_le_bytes());
    payload.extend_from_slice(&nonce.to_le_bytes());
    let expected = blake2_rfc::blake2b::blake2b(16, &[], &payload);
    assert_eq!(fresh_dna(&seed, account, nonce), expected.as_bytes().to_vec());
}
