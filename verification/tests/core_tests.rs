use word_scrambler::bitsize::getwordlistbitsize;
use word_scrambler::errors::ScrambleError;
use word_scrambler::hashing::sha3;
use word_scrambler::kdf::{derive_key, derive_key_round, wipe, KdfConfig};
use word_scrambler::packer::dividekey;
use word_scrambler::scramble::scramblewords;

fn test_config() -> KdfConfig {
    KdfConfig { t_cost: 1, m_cost: 8, p_cost: 1, rounds: 1 }
}

#[test]
fn chain_hash_zero_rounds_is_identity() {
    let data = b"some wallet data".to_vec();
    let out = sha3(&data, 0);
    assert_eq!(out, data);
    let empty: Vec<u8> = Vec::new();
    assert_eq!(sha3(&empty, 0), empty);
}

#[test]
fn chain_hash_is_sequential_applications() {
    let data = b"abc";
    let once = sha3(data, 1);
    let twice = sha3(data, 2);
    let thrice = sha3(data, 3);
    assert_eq!(once.len(), 64);
    assert_eq!(sha3(&once, 1), twice);
    assert_eq!(sha3(&once, 2), thrice);
    assert_eq!(sha3(&twice, 1), thrice);
}

#[test]
fn chain_hash_is_deterministic() {
    let a = sha3(b"payload", 5);
    let b = sha3(b"payload", 5);
    assert_eq!(a, b);
    assert_ne!(sha3(b"payload", 1), sha3(b"payloae", 1));
}

#[test]
fn derive_key_is_deterministic() {
    let cfg = test_config();
    let pwd = b"Test1234!@#$";
    let k1 = derive_key(pwd, &cfg).unwrap();
    let k2 = derive_key(pwd, &cfg).unwrap();
    assert_eq!(k1.to_vec(), k2.to_vec());
    assert_eq!(k1.len(), 64);
}

#[test]
fn derive_key_distinct_passwords_differ() {
    let cfg = test_config();
    let k1 = derive_key(b"Test1234!@#$", &cfg).unwrap();
    let k2 = derive_key(b"Test1234!@#%", &cfg).unwrap();
    assert_ne!(k1.to_vec(), k2.to_vec());
}

#[test]
fn derive_key_depends_on_round_salt() {
    // With one round the salt differs from the two-round salt, so the keys
    // differ; a key derivation that ignored its salt would return equal keys.
    let one = test_config();
    let two = KdfConfig { rounds: 2, ..test_config() };
    let k1 = derive_key(b"Test1234!@#$", &one).unwrap();
    let k2 = derive_key(b"Test1234!@#$", &two).unwrap();
    assert_ne!(k1.to_vec(), k2.to_vec());
}

#[test]
fn derive_key_is_its_last_round() {
    // The key buffer is rewritten every round, so the derived key equals
    // the digest of the final round alone.
    let cfg = KdfConfig { rounds: 3, ..test_config() };
    let full = derive_key(b"Test1234!@#$", &cfg).unwrap();
    let last = derive_key_round(b"Test1234!@#$", &cfg, 3).unwrap();
    assert_eq!(full.to_vec(), last.to_vec());
    let second = derive_key_round(b"Test1234!@#$", &cfg, 2).unwrap();
    assert_ne!(full.to_vec(), second.to_vec());
}

#[test]
fn derive_key_rejects_bad_config() {
    let cfg = KdfConfig { t_cost: 0, m_cost: 8, p_cost: 1, rounds: 1 };
    assert_eq!(derive_key(b"pw", &cfg), Err(ScrambleError::ConfigurationError));
    let cfg = KdfConfig { t_cost: 1, m_cost: 7, p_cost: 1, rounds: 1 };
    assert_eq!(derive_key(b"pw", &cfg), Err(ScrambleError::ConfigurationError));
    let cfg = KdfConfig { t_cost: 1, m_cost: 8, p_cost: 1, rounds: 0 };
    assert_eq!(derive_key(b"pw", &cfg), Err(ScrambleError::ConfigurationError));
}

#[test]
fn production_config_is_fixed() {
    let cfg = KdfConfig::production();
    assert_eq!(cfg.t_cost, 5);
    assert_eq!(cfg.m_cost, 2 * 1024 * 1024);
    assert_eq!(cfg.p_cost, 4);
    assert_eq!(cfg.rounds, 10);
}

#[test]
fn pack_chunks_zero_key_gives_zero_chunks() {
    let zero = [0u8; 64];
    for &(count, width) in &[(12usize, 11usize), (33, 11), (24, 10), (40, 12), (512, 1)] {
        let chunks = dividekey(zero, count, width).unwrap();
        assert_eq!(chunks.len(), count);
        assert!(chunks.iter().all(|&c| c == 0));
    }
}

#[test]
fn pack_chunks_fails_on_insufficient_key_material() {
    let key = [7u8; 64];
    assert_eq!(dividekey(key, 33, 16), Err(ScrambleError::InsufficientKeyMaterial));
    assert_eq!(dividekey(key, 47, 11), Err(ScrambleError::InsufficientKeyMaterial));
    assert!(dividekey(key, 46, 11).is_ok());
    assert!(dividekey(key, 32, 16).is_ok());
    assert!(dividekey(key, 33, 11).is_ok());
}

#[test]
fn pack_chunks_reads_bits_in_order() {
    // First byte 0b10110100, 4-bit chunks, least-significant bit first:
    // chunk 0 is 0b0100 = 4, chunk 1 is 0b1011 = 11.
    let mut key = [0u8; 64];
    key[0] = 0b1011_0100;
    key[1] = 0xff;
    let chunks = dividekey(key, 4, 4).unwrap();
    assert_eq!(chunks, vec![4, 11, 15, 15]);
    // An 11-bit chunk spans byte boundaries: bits 0..11 of 0x01, 0x80 are
    // 1 and then bit 10 mapping to 0x80's last-but-one... check by value:
    // byte0 = 0x01 gives bit 0; byte1 = 0x04 gives bit 10 (1 << 2 within
    // the second byte, position 8 + 2).
    let mut key2 = [0u8; 64];
    key2[0] = 0x01;
    key2[1] = 0x04;
    let chunks2 = dividekey(key2, 2, 11).unwrap();
    assert_eq!(chunks2[0], 0b100_0000_0001);
    assert_eq!(chunks2[1], 0);
}

#[test]
fn scramble_is_involution_for_power_of_two() {
    let cfg = test_config();
    let key = derive_key(b"Test1234!@#$", &cfg).unwrap();
    let words: Vec<usize> = vec![0, 5, 2047, 1024, 7, 600, 3, 1, 12, 1999, 42, 11];
    let once = scramblewords(&words, key, 2048).unwrap();
    let twice = scramblewords(&once, key, 2048).unwrap();
    assert_eq!(twice, words);
    assert!(once.iter().all(|&w| w < 2048));
}

#[test]
fn scramble_with_zero_key_keeps_indices() {
    let words: Vec<usize> = (0..33).collect();
    let out = scramblewords(&words, [0u8; 64], 2048).unwrap();
    assert_eq!(out, words);
}

#[test]
fn scramble_rejects_oversized_requests() {
    let words: Vec<usize> = vec![0; 47];
    assert_eq!(
        scramblewords(&words, [1u8; 64], 2048),
        Err(ScrambleError::InsufficientKeyMaterial)
    );
}

#[test]
fn wordlist_bitsize_matches_list_sizes() {
    let list_2048: Vec<String> = (0..2048).map(|i| format!("w{}", i)).collect();
    assert_eq!(getwordlistbitsize(&list_2048), 11);
    let list_1024: Vec<String> = (0..1024).map(|i| format!("w{}", i)).collect();
    assert_eq!(getwordlistbitsize(&list_1024), 10);
    // A list padded with empty entries counts only its real words.
    let mut padded: Vec<String> = (0..1024).map(|i| format!("w{}", i)).collect();
    padded.extend((0..1024).map(|_| String::new()));
    assert_eq!(padded.len(), 2048);
    assert_eq!(getwordlistbitsize(&padded), 10);
    let list_16: Vec<String> = (0..16).map(|i| format!("w{}", i)).collect();
    assert_eq!(getwordlistbitsize(&list_16), 4);
    let one: Vec<String> = vec!["word".to_string()];
    assert_eq!(getwordlistbitsize(&one), 0);
}

#[test]
fn wipe_zeroes_the_buffer() {
    let mut buf = b"secret password".to_vec();
    wipe(&mut buf);
    assert_eq!(buf.len(), 15);
    assert!(buf.iter().all(|&b| b == 0));
}

#[test]
fn error_messages_are_printable() {
    assert!(!ScrambleError::ConfigurationError.message().is_empty());
    assert!(!ScrambleError::InsufficientKeyMaterial.message().is_empty());
    assert!(!ScrambleError::WordNotFound.message().is_empty());
    assert!(!ScrambleError::UnsupportedWalletFile.message().is_empty());
}
