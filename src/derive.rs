//! Raw derived bytes and BIP39 mnemonics.
use crate::error::Error;
use crate::seed::{derived, Seed, MAX_DERIVE_LEN};
use crate::sign::{base64_encode, base64_text};
use crate::text::{append_bytes, wipe_bytes};
use vstd::prelude::*;
use vstd::utf8::encode_utf8;

verus! {

/// The English BIP39 phrase (words joined by single spaces) for some entropy.
pub uninterp spec fn bip39_phrase(entropy: Seq<u8>) -> Seq<char>;

/// The number of spaces in a text.
pub open spec fn space_count(s: Seq<char>) -> nat {
    s.filter(|c: char| c == ' ').len()
}

/// Relies on `bip39::Mnemonic::from_entropy` and its `Display`: entropy of 16
/// to 32 bytes in steps of 4 is accepted, anything else is refused; the phrase
/// is its `len * 3 / 4` English words (none holds a space) joined by spaces.
#[verifier::external_body]
fn bip39_from_entropy(entropy: &[u8]) -> (r: Option<String>)
    ensures
        r is Some <==> (16 <= entropy@.len() <= 32 && entropy@.len() % 4 == 0),
        r matches Some(s) ==> s@ == bip39_phrase(entropy@) && space_count(s@) + 1 == entropy@.len() * 3 / 4,
{
    bip39::Mnemonic::from_entropy(entropy).ok().map(|m| m.to_string())
}

/// The entropy size in bytes behind a mnemonic of `words` words, if that count
/// is one of 12, 15, 18, 21 or 24.
pub open spec fn mnemonic_entropy_len(words: nat) -> Option<nat> {
    if words == 12 {
        Some(16)
    } else if words == 15 {
        Some(20)
    } else if words == 18 {
        Some(24)
    } else if words == 21 {
        Some(28)
    } else if words == 24 {
        Some(32)
    } else {
        None
    }
}

/// The purpose of raw derivations: "raw/" + path.
pub open spec fn raw_purpose(path: Seq<char>) -> Seq<u8> {
    seq![0x72u8, 0x61u8, 0x77u8, 0x2fu8] + encode_utf8(path)
}

/// The purpose of mnemonic derivations: "mnemonic".
pub open spec fn mnemonic_purpose() -> Seq<u8> {
    seq![0x6du8, 0x6eu8, 0x65u8, 0x6du8, 0x6fu8, 0x6eu8, 0x69u8, 0x63u8]
}

/// The lowercase hexadecimal digit of a value below 16.
pub open spec fn hex_digit(v: int) -> char {
    if v < 10 {
        (48 + v) as char
    } else {
        (87 + v) as char
    }
}

/// The lowercase hexadecimal text of some bytes, two digits per byte.
pub open spec fn hex_text(bytes: Seq<u8>) -> Seq<char>
    decreases bytes.len(),
{
    if bytes.len() == 0 {
        Seq::empty()
    } else {
        hex_text(bytes.drop_last()) + seq![hex_digit(bytes.last() as int / 16), hex_digit(bytes.last() as int % 16)]
    }
}

/// Hexadecimal text has two digits per byte.
pub proof fn lemma_hex_text_len(bytes: Seq<u8>)
    ensures
        hex_text(bytes).len() == 2 * bytes.len(),
    decreases bytes.len(),
{
    if bytes.len() > 0 {
        lemma_hex_text_len(bytes.drop_last());
    }
}

/// Relies on `hex::encode`: two lowercase hexadecimal digits per byte.
#[verifier::external_body]
fn hex_encode(bytes: &[u8]) -> (text: String)
    ensures
        text@ == hex_text(bytes@),
{
    hex::encode(bytes)
}

/// How raw bytes are shown as text.
#[derive(Debug, Clone, Copy, PartialEq, Eq, Structural)]
pub enum RawFormat {
    Hex,
    Base64,
}

/// Raw derived bytes as text: lowercase hexadecimal or standard base64.
pub fn raw_text(bytes: &[u8], format: RawFormat) -> (r: String)
    ensures
        r@ == match format {
            RawFormat::Hex => hex_text(bytes@),
            RawFormat::Base64 => base64_text(bytes@),
        },
        format == RawFormat::Hex ==> r@.len() == 2 * bytes@.len(),
{
    proof {
        lemma_hex_text_len(bytes@);
    }
    match format {
        RawFormat::Hex => hex_encode(bytes),
        RawFormat::Base64 => base64_encode(bytes),
    }
}

/// Maps a mnemonic word count to its entropy size in bytes.
pub fn entropy_len(words: usize) -> (r: Result<usize, Error>)
    ensures
        match mnemonic_entropy_len(words as nat) {
            Some(n) => r == Ok::<usize, Error>(n as usize),
            None => r == Err::<usize, Error>(Error::WordCount(words)),
        },
{
    match words {
        12 => Ok(16),
        15 => Ok(20),
        18 => Ok(24),
        21 => Ok(28),
        24 => Ok(32),
        _ => Err(Error::WordCount(words)),
    }
}

/// Derives `length` raw bytes under the path "raw/" + `path`.
pub fn raw(seed: &Seed, realm: &str, path: &str, length: usize) -> (r: Result<Vec<u8>, Error>)
    ensures
        length <= MAX_DERIVE_LEN ==> r == Ok::<Vec<u8>, Error>(r->Ok_0) && r->Ok_0@ == derived(
            seed@,
            realm@,
            raw_purpose(path@),
            length as nat,
        ) && r->Ok_0@.len() == length,
        length > MAX_DERIVE_LEN ==> r == Err::<Vec<u8>, Error>(Error::DerivationLength(length)),
{
    let mut purpose: Vec<u8> = vec![0x72u8, 0x61u8, 0x77u8, 0x2fu8];
    append_bytes(&mut purpose, path.as_bytes());
    assert(purpose@ =~= raw_purpose(path@));
    seed.derive_for(realm, purpose.as_slice(), length)
}

/// Derives a BIP39 mnemonic of `words` words for a realm.
pub fn mnemonic(seed: &Seed, realm: &str, words: usize) -> (r: Result<String, Error>)
    ensures
        match mnemonic_entropy_len(words as nat) {
            Some(n) => r matches Ok(s) && s@ == bip39_phrase(derived(seed@, realm@, mnemonic_purpose(), n))
                && space_count(s@) + 1 == words,
            None => r == Err::<String, Error>(Error::WordCount(words)),
        },
{
    let n = match entropy_len(words) {
        Ok(n) => n,
        Err(e) => return Err(e),
    };
    let purpose: Vec<u8> = vec![0x6du8, 0x6eu8, 0x65u8, 0x6du8, 0x6fu8, 0x6eu8, 0x69u8, 0x63u8];
    assert(purpose@ =~= mnemonic_purpose());
    let mut entropy = match seed.derive_for(realm, purpose.as_slice(), n) {
        Ok(v) => v,
        Err(e) => return Err(e),
    };
    let phrase = bip39_from_entropy(entropy.as_slice());
    wipe_bytes(&mut entropy);
    match phrase {
        Some(s) => Ok(s),
        None => Err(Error::WordCount(words)),
    }
}

} // verus!
