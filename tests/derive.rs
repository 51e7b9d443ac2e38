use oneseed::derive::{entropy_len, mnemonic, raw, raw_text, RawFormat};
use oneseed::error::Error;
use oneseed::seed::{Seed, StretchCost, MAX_DERIVE_LEN};

fn test_seed() -> Seed {
    Seed::from_passphrase("test", StretchCost::Reduced).unwrap()
}

#[test]
fn mnemonic_deterministic() {
    let seed = test_seed();

    let m1 = mnemonic(&seed, "realm", 24).unwrap();
    let m2 = mnemonic(&seed, "realm", 24).unwrap();

    assert_eq!(m1.as_str(), m2.as_str());
}

#[test]
fn mnemonic_valid_words() {
    let seed = test_seed();

    for words in [12, 15, 18, 21, 24] {
        let m = mnemonic(&seed, "realm", words).unwrap();
        assert_eq!(m.split_whitespace().count(), words);
    }
}

#[test]
fn mnemonic_word_count_mapping() {
    assert_eq!(entropy_len(12), Ok(16));
    assert_eq!(entropy_len(15), Ok(20));
    assert_eq!(entropy_len(18), Ok(24));
    assert_eq!(entropy_len(21), Ok(28));
    assert_eq!(entropy_len(24), Ok(32));
    for words in [0usize, 1, 11, 13, 16, 23, 25, 48] {
        assert_eq!(entropy_len(words), Err(Error::WordCount(words)));
    }
}

#[test]
fn mnemonic_rejects_other_counts() {
    let seed = test_seed();
    assert_eq!(mnemonic(&seed, "realm", 13), Err(Error::WordCount(13)));
    assert_eq!(mnemonic(&seed, "realm", 0), Err(Error::WordCount(0)));
}

#[test]
fn mnemonic_realms_differ() {
    let seed = test_seed();
    assert_ne!(mnemonic(&seed, "a", 12).unwrap(), mnemonic(&seed, "b", 12).unwrap());
}

#[test]
fn raw_uses_raw_path() {
    let seed = test_seed();
    let bytes = raw(&seed, "realm", "test", 16).unwrap();
    assert_eq!(bytes.len(), 16);
    assert_eq!(bytes, seed.derive("realm", "raw/test", 16).unwrap());
    assert_ne!(bytes, seed.derive("realm", "test", 16).unwrap());
}

#[test]
fn raw_over_ceiling_is_rejected() {
    let seed = test_seed();
    assert_eq!(raw(&seed, "realm", "test", MAX_DERIVE_LEN + 1), Err(Error::DerivationLength(MAX_DERIVE_LEN + 1)));
    assert_eq!(raw(&seed, "realm", "test", MAX_DERIVE_LEN).unwrap().len(), MAX_DERIVE_LEN);
}

#[test]
fn raw_text_formats() {
    assert_eq!(raw_text(&[0x00, 0x0f, 0xa5, 0xff], RawFormat::Hex), "000fa5ff");
    assert_eq!(raw_text(&[], RawFormat::Hex), "");
    assert_eq!(raw_text(b"hello", RawFormat::Base64), "aGVsbG8=");
    let seed = test_seed();
    let bytes = raw(&seed, "realm", "test", 32).unwrap();
    assert_eq!(raw_text(&bytes, RawFormat::Hex).len(), 64);
    assert_eq!(raw_text(&bytes, RawFormat::Base64).len(), 44);
}
