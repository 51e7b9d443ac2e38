use oneseed::error::Error;
use oneseed::seed::{Seed, StretchCost, MAX_DERIVE_LEN};

fn test_seed(secret: &str) -> Seed {
    Seed::from_passphrase(secret, StretchCost::Reduced).unwrap()
}

#[test]
fn deterministic_derivation() {
    let seed1 = test_seed("test passphrase");
    let seed2 = test_seed("test passphrase");

    let key1 = seed1.derive("realm", "type", 32).unwrap();
    let key2 = seed2.derive("realm", "type", 32).unwrap();

    assert_eq!(key1.as_slice(), key2.as_slice());
}

#[test]
fn seed_different_realms_different_keys() {
    let seed = test_seed("test");

    let key1 = seed.derive("realm1", "age", 32).unwrap();
    let key2 = seed.derive("realm2", "age", 32).unwrap();

    assert_ne!(key1.as_slice(), key2.as_slice());
}

#[test]
fn different_types_different_keys() {
    let seed = test_seed("test");

    let key1 = seed.derive("realm", "age", 32).unwrap();
    let key2 = seed.derive("realm", "ssh", 32).unwrap();

    assert_ne!(key1.as_slice(), key2.as_slice());
}

#[test]
fn different_secrets_different_keys() {
    let a = test_seed("test");
    let b = test_seed("test2");
    assert_ne!(a.derive("realm", "age", 32).unwrap(), b.derive("realm", "age", 32).unwrap());
}

#[test]
fn derive_length_is_exact() {
    let seed = test_seed("test");
    for len in [0usize, 1, 31, 32, 33, 100, MAX_DERIVE_LEN] {
        assert_eq!(seed.derive("realm", "raw", len).unwrap().len(), len);
    }
}

#[test]
fn derive_prefix_of_longer_output() {
    let seed = test_seed("test");
    let short = seed.derive("realm", "raw", 16).unwrap();
    let long = seed.derive("realm", "raw", 64).unwrap();
    assert_eq!(&long[..16], short.as_slice());
}

#[test]
fn derive_over_ceiling_is_rejected() {
    let seed = test_seed("test");
    assert_eq!(
        seed.derive("realm", "raw", MAX_DERIVE_LEN + 1),
        Err(Error::DerivationLength(MAX_DERIVE_LEN + 1))
    );
}

#[test]
fn derive_32_matches_derive() {
    let seed = test_seed("test");
    let long = seed.derive("realm", "age", 32).unwrap();
    assert_eq!(seed.derive_32("realm", "age").to_vec(), long);
}

#[test]
fn derive_for_matches_derive() {
    let seed = test_seed("test");
    assert_eq!(
        seed.derive_for("realm", "ssh".as_bytes(), 32).unwrap(),
        seed.derive("realm", "ssh", 32).unwrap()
    );
}

#[test]
fn derived_bytes_differ_from_path() {
    let seed = test_seed("test");
    let out = seed.derive("realm", "abcdefghijklmnopqrstuvwxyz", 32).unwrap();
    assert_ne!(&out[..], "v1/realm/abcdefghijklmnopqrstuvwx".as_bytes());
}

#[test]
fn stretch_tiers_differ() {
    assert_eq!(StretchCost::Reduced.log_n(), 12);
    assert_eq!(StretchCost::Production.log_n(), 20);
}

#[test]
fn binary_secret_uses_first_32_bytes() {
    let mut a: Vec<u8> = (0u8..40).collect();
    let mut b = a.clone();
    b[35] = 0xff;
    let sa = Seed::from_file(&a, StretchCost::Reduced).unwrap();
    let sb = Seed::from_file(&b, StretchCost::Reduced).unwrap();
    assert_eq!(sa.derive("realm", "age", 32).unwrap(), sb.derive("realm", "age", 32).unwrap());
    a[0] = 1;
    let sc = Seed::from_file(&a, StretchCost::Reduced).unwrap();
    assert_ne!(sa.derive("realm", "age", 32).unwrap(), sc.derive("realm", "age", 32).unwrap());
}

#[test]
fn binary_secret_is_not_stretched() {
    let bytes: Vec<u8> = (0u8..32).collect();
    let bin = Seed::from_file(&bytes, StretchCost::Reduced).unwrap();
    let mut text = String::new();
    for b in &bytes {
        text.push(*b as char);
    }
    let stretched = test_seed(&text);
    assert_ne!(bin.derive("r", "p", 32).unwrap(), stretched.derive("r", "p", 32).unwrap());
}

#[test]
fn short_secret_with_control_bytes_is_text() {
    let bytes = b"test\n".to_vec();
    let from_bytes = Seed::from_file(&bytes, StretchCost::Reduced).unwrap();
    let from_text = test_seed("test");
    assert_eq!(
        from_bytes.derive("realm", "age", 32).unwrap(),
        from_text.derive("realm", "age", 32).unwrap()
    );
}

#[test]
fn long_printable_secret_is_trimmed_text() {
    let secret = "  a long printable passphrase of many words  ";
    assert!(secret.len() >= 32);
    let from_bytes = Seed::from_file(secret.as_bytes(), StretchCost::Reduced).unwrap();
    let from_text = test_seed(secret.trim());
    assert_eq!(
        from_bytes.derive("realm", "age", 32).unwrap(),
        from_text.derive("realm", "age", 32).unwrap()
    );
}

#[test]
fn invalid_utf8_short_secret_is_read_lossily() {
    let bytes = vec![0x74u8, 0xff, 0x74];
    let from_bytes = Seed::from_file(&bytes, StretchCost::Reduced).unwrap();
    let from_text = test_seed("t\u{fffd}t");
    assert_eq!(
        from_bytes.derive("realm", "age", 32).unwrap(),
        from_text.derive("realm", "age", 32).unwrap()
    );
}
