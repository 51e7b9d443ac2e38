//! The library's error type.
use vstd::prelude::*;

verus! {

/// Failures of the library; each carries the offending value where there is one.
#[derive(Debug, Clone, Copy, PartialEq, Eq, Structural)]
pub enum Error {
    /// A derivation asked for more bytes than HKDF-SHA256 can expand to.
    DerivationLength(usize),
    /// The stretching work factor is outside scrypt's valid range.
    WorkFactor(u8),
    /// A password length outside 4 ..= 128.
    PasswordLength(usize),
    /// A mnemonic word count other than 12, 15, 18, 21 or 24.
    WordCount(usize),
    /// Bytes that had to be UTF-8 text were not.
    InputFormat,
    /// Encryption was asked for without any recipient.
    NoRecipients,
    /// Text that is not an age X25519 recipient.
    InvalidRecipient,
    /// An age recipient whose key is of small order, to which nothing can be
    /// safely encrypted.
    LowOrderRecipient,
    /// Text that is not an age X25519 identity.
    InvalidIdentity,
    /// The file is sealed with a passphrase, not to recipients.
    PassphraseSealed,
    /// The file is sealed to recipients, not with a passphrase.
    RecipientsSealed,
    /// age could not produce the encrypted file.
    Encryption,
    /// The file could not be opened or decrypted.
    Decryption,
    /// Text that is not standard base64.
    InvalidBase64,
    /// A public key of the wrong length, in bytes.
    PublicKeyLength(usize),
    /// A signature of the wrong length, in bytes.
    SignatureLength(usize),
    /// Bytes that are not an Ed25519 public key.
    InvalidPublicKey,
}

} // verus!
