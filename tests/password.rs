use oneseed::error::Error;
use oneseed::password;
use oneseed::password::{ensure_requirements, synthesize};
use oneseed::seed::{Seed, StretchCost};

const UPPER: &str = "ABCDEFGHJKLMNPQRSTUVWXYZ";
const LOWER: &str = "abcdefghjkmnpqrstuvwxyz";
const DIGIT: &str = "23456789";
const SYMBOL: &str = "!@#$%^&*";

fn test_seed() -> Seed {
    Seed::from_passphrase("test", StretchCost::Reduced).unwrap()
}

#[test]
fn password_meets_requirements() {
    let seed = test_seed();

    for i in 0..100 {
        let pw = password::derive(&seed, "realm", &format!("site{i}"), 1, 16, true, "").unwrap();

        assert!(pw.chars().any(|c| c.is_ascii_uppercase()), "missing uppercase");
        assert!(pw.chars().any(|c| c.is_ascii_lowercase()), "missing lowercase");
        assert!(pw.chars().any(|c| c.is_ascii_digit()), "missing digit");
        assert!(pw.chars().any(|c| "!@#$%^&*".contains(c)), "missing symbol");
    }
}

#[test]
fn password_password_deterministic() {
    let seed = test_seed();

    let pw1 = password::derive(&seed, "realm", "site", 1, 16, true, "").unwrap();
    let pw2 = password::derive(&seed, "realm", "site", 1, 16, true, "").unwrap();

    assert_eq!(pw1.as_str(), pw2.as_str());
}

#[test]
fn counter_changes_password() {
    let seed = test_seed();

    let pw1 = password::derive(&seed, "realm", "site", 1, 16, true, "").unwrap();
    let pw2 = password::derive(&seed, "realm", "site", 2, 16, true, "").unwrap();

    assert_ne!(pw1.as_str(), pw2.as_str());
}

#[test]
fn password_golden_value() {
    let seed = test_seed();
    let s1 = password::derive(&seed, "realm", "site", 1, 16, true, SYMBOL).unwrap();
    let s2 = password::derive(&seed, "realm", "site", 2, 16, true, SYMBOL).unwrap();
    assert_eq!(s1, "yHsX^P%*a425UypN");
    assert_ne!(s1, s2);
    assert_eq!(password::derive(&seed, "realm", "site", 1, 16, true, SYMBOL).unwrap(), s1);
}

#[test]
fn password_lengths_and_alphabet() {
    let seed = test_seed();
    let alphabet = format!("{UPPER}{LOWER}{DIGIT}{SYMBOL}");
    for len in 4..=128usize {
        let pw = password::derive(&seed, "realm", "site", 1, len, true, "").unwrap();
        assert_eq!(pw.chars().count(), len);
        assert!(pw.chars().all(|c| alphabet.contains(c)));
    }
}

#[test]
fn password_length_out_of_range() {
    let seed = test_seed();
    assert_eq!(password::derive(&seed, "realm", "site", 1, 3, true, ""), Err(Error::PasswordLength(3)));
    assert_eq!(password::derive(&seed, "realm", "site", 1, 0, true, ""), Err(Error::PasswordLength(0)));
    assert_eq!(password::derive(&seed, "realm", "site", 1, 129, true, ""), Err(Error::PasswordLength(129)));
}

#[test]
fn password_without_symbols() {
    let seed = test_seed();
    let alphabet = format!("{UPPER}{LOWER}{DIGIT}");
    for i in 0..20 {
        let pw = password::derive(&seed, "realm", &format!("site{i}"), 1, 16, false, SYMBOL).unwrap();
        assert!(pw.chars().all(|c| alphabet.contains(c)));
    }
}

#[test]
fn password_custom_symbols() {
    let seed = test_seed();
    let alphabet = format!("{UPPER}{LOWER}{DIGIT}-_");
    for i in 0..20 {
        let pw = password::derive(&seed, "realm", &format!("site{i}"), 1, 32, true, "-_").unwrap();
        assert!(pw.chars().all(|c| alphabet.contains(c)));
        assert!(pw.contains('-') || pw.contains('_'));
    }
}

#[test]
fn password_realm_changes_output() {
    let seed = test_seed();
    let a = password::derive(&seed, "realm1", "site", 1, 16, true, "").unwrap();
    let b = password::derive(&seed, "realm2", "site", 1, 16, true, "").unwrap();
    assert_ne!(a, b);
}

#[test]
fn password_non_utf8_symbols_fail_or_decode() {
    let seed = test_seed();
    for i in 0..20 {
        match password::derive(&seed, "realm", &format!("site{i}"), 1, 64, true, "é") {
            Ok(pw) => assert!(pw.chars().count() <= 64),
            Err(e) => assert_eq!(e, Error::InputFormat),
        }
    }
}

#[test]
fn synthesize_takes_accepted_bytes_in_order() {
    // 55 characters without symbols: bytes below 220 are accepted.
    let raw = [250u8, 0, 224, 1, 57, 230, 2, 3];
    // lower goes to position 1, digit to position 2
    let fix = [0u8, 0, 1, 0, 2, 0, 0, 0];
    let pw = synthesize(&raw, &fix, 4, false, &[]);
    assert_eq!(pw, b"Aa2C".to_vec());
}

#[test]
fn synthesize_falls_back_to_plain_modulo() {
    // Every byte is rejected, so position i takes raw[i] modulo 55: "EFGg".
    let raw = [224u8, 225, 226, 250, 255, 240, 230, 231];
    // the missing digit goes to position 0 as '3'
    let fix = [0u8, 0, 0, 0, 0, 1, 0, 0];
    let pw = synthesize(&raw, &fix, 4, false, &[]);
    assert_eq!(pw, b"3FGg".to_vec());
}

#[test]
fn synthesize_uses_default_symbols_when_none_given() {
    let raw = [0u8; 8];
    let fix = [0u8, 0, 1, 0, 2, 0, 3, 0];
    let pw = synthesize(&raw, &fix, 4, true, &[]);
    assert_eq!(pw, b"Aa2!".to_vec());
    let pw = synthesize(&raw, &fix, 4, true, b"~");
    assert_eq!(pw, b"Aa2~".to_vec());
}

#[test]
fn repair_fills_missing_classes_in_order() {
    let mut pw = b"AAAA".to_vec();
    // lower missing: position 5 % 4 = 1, char 2 % 23 -> 'c'
    // digit missing: position 6 % 4 = 2, char 9 % 8 -> '3'
    // symbol missing: position 3 % 4 = 3, char 10 % 8 -> '#'
    let fix = [0u8, 0, 5, 2, 6, 9, 3, 10];
    ensure_requirements(&mut pw, &fix, true, SYMBOL.as_bytes());
    assert_eq!(pw, b"Ac3#".to_vec());
}

#[test]
fn repair_may_overwrite_an_earlier_repair() {
    let mut pw = b"!!!!".to_vec();
    // upper missing: position 0, 'A'; lower missing: position 4 % 4 = 0, 'a'
    let fix = [0u8, 0, 4, 0, 1, 0, 2, 0];
    ensure_requirements(&mut pw, &fix, true, SYMBOL.as_bytes());
    assert_eq!(pw, b"a2!!".to_vec());
}

#[test]
fn repair_leaves_complete_password_alone() {
    let mut pw = b"Ab3!".to_vec();
    let fix = [7u8; 8];
    ensure_requirements(&mut pw, &fix, true, SYMBOL.as_bytes());
    assert_eq!(pw, b"Ab3!".to_vec());
    let mut pw = b"Ab3x".to_vec();
    ensure_requirements(&mut pw, &fix, false, &[]);
    assert_eq!(pw, b"Ab3x".to_vec());
}

#[test]
fn repair_without_symbols_reads_six_fix_bytes() {
    let mut pw = b"!!!!".to_vec();
    let fix = [0u8, 0, 1, 0, 2, 0];
    ensure_requirements(&mut pw, &fix, false, &[]);
    assert_eq!(pw, b"Aa2!".to_vec());
}

#[test]
fn password_ignores_symbols_when_off() {
    let seed = test_seed();
    let a = password::derive(&seed, "realm", "site", 1, 20, false, "é").unwrap();
    let b = password::derive(&seed, "realm", "site", 1, 20, false, "").unwrap();
    assert_eq!(a, b);
    assert_eq!(a.chars().count(), 20);
}
