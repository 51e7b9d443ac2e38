//! age keys derived from the master key, and encryption and decryption of
//! age files in memory.
use crate::error::Error;
use crate::seed::{derived, trim_ends, trimmed, wipe_key, Seed};
use crate::text::to_array;
use bech32::{FromBase32, ToBase32};
use std::io::{Read, Write};
use vstd::prelude::*;
use vstd::string::StrSliceExecFns;
use vstd::utf8::encode_utf8;

verus! {

/// How an age file is sealed, as its header says.
#[derive(Debug, Clone, Copy, PartialEq, Eq, Structural)]
pub enum Sealing {
    Recipients,
    Passphrase,
}

/// The X25519 public key of a 32-byte secret scalar.
pub uninterp spec fn x25519_public_key(secret: Seq<u8>) -> Seq<u8>;

/// The Bech32 text (variant Bech32, lowercase) of some bytes under a
/// human-readable part.
pub uninterp spec fn bech32_text(hrp: Seq<char>, data: Seq<u8>) -> Seq<char>;

/// What `str::to_uppercase` makes of a string.
pub uninterp spec fn uppercase_of(s: Seq<char>) -> Seq<char>;

/// The human-readable part and the data bytes of a Bech32 (not Bech32m)
/// text, if it decodes.
pub uninterp spec fn bech32_payload(s: Seq<char>) -> Option<(Seq<char>, Seq<u8>)>;

/// Whether a public key is a point of small order on Curve25519 or its twist:
/// X25519 gives the all-zero value for it, whatever the secret.
pub uninterp spec fn x25519_low_order(public: Seq<u8>) -> bool;

/// The X25519 public key that an age recipient text names: a Bech32 text with
/// human-readable part "age" and 32 data bytes.
pub open spec fn recipient_key_of(s: Seq<char>) -> Option<Seq<u8>> {
    match bech32_payload(s) {
        Some((hrp, data)) => if hrp == seq!['a', 'g', 'e'] && data.len() == 32 {
            Some(data)
        } else {
            None
        },
        None => None,
    }
}

/// Whether a recipient text names a key that files can be encrypted to: its
/// key is not of small order, so the key agreement with it contributes.
pub open spec fn recipient_accepted(s: Seq<char>) -> bool {
    recipient_key_of(s) matches Some(k) && !x25519_low_order(k)
}

/// An age X25519 recipient: its text and the public key the text names.
pub struct Recipient {
    text: String,
    key: [u8; 32],
}

impl Recipient {
    /// The recipient's text.
    pub closed spec fn text(&self) -> Seq<char> {
        self.text@
    }

    /// The recipient's public key.
    pub closed spec fn key(&self) -> Seq<u8> {
        self.key@
    }

    #[verifier::type_invariant]
    closed spec fn names_its_key(&self) -> bool {
        recipient_key_of(self.text@) == Some(self.key@)
    }

    /// Whether the recipient's key is of small order.
    fn key_is_low_order(&self) -> (r: bool)
        ensures
            recipient_key_of(self.text()) == Some(self.key()),
            r == x25519_low_order(self.key()),
    {
        proof {
            use_type_invariant(self);
        }
        is_low_order(&self.key)
    }
}

/// Whether age parses the text as an X25519 identity.
pub uninterp spec fn is_age_identity(s: Seq<char>) -> bool;

/// The ASCII armor that age puts around an encrypted file.
pub uninterp spec fn age_armored(file: Seq<u8>) -> Seq<u8>;

/// How age reads the header of a file: `None` when it is no age file.
pub uninterp spec fn age_sealing_of(file: Seq<u8>) -> Option<Sealing>;

/// The plaintext of an age file opened with an identity given as text.
pub uninterp spec fn age_plaintext(identity: Seq<char>, file: Seq<u8>) -> Seq<u8>;

/// A human-readable part that Bech32 encoding accepts: 1 to 83 printable ASCII
/// characters, no uppercase letter.
pub open spec fn bech32_hrp_ok(hrp: Seq<char>) -> bool {
    &&& 1 <= hrp.len() <= 83
    &&& forall|i: int| 0 <= i < hrp.len() ==> '!' <= #[trigger] hrp[i] <= '~' && !('A' <= hrp[i] <= 'Z')
}

/// The first line of an armored age file: "-----BEGIN AGE ENCRYPTED FILE-----".
pub open spec fn armor_begin() -> Seq<u8> {
    seq![
        0x2du8, 0x2du8, 0x2du8, 0x2du8, 0x2du8, 0x42u8, 0x45u8, 0x47u8, 0x49u8, 0x4eu8, 0x20u8, 0x41u8,
        0x47u8, 0x45u8, 0x20u8, 0x45u8, 0x4eu8, 0x43u8, 0x52u8, 0x59u8, 0x50u8, 0x54u8, 0x45u8, 0x44u8,
        0x20u8, 0x46u8, 0x49u8, 0x4cu8, 0x45u8, 0x2du8, 0x2du8, 0x2du8, 0x2du8, 0x2du8,
    ]
}

/// The purpose of age key derivations: "age".
pub open spec fn age_purpose() -> Seq<char> {
    seq!['a', 'g', 'e']
}

/// The age recipient text for a master key and realm.
pub open spec fn recipient_text(master: Seq<u8>, realm: Seq<char>) -> Seq<char> {
    bech32_text(seq!['a', 'g', 'e'], x25519_public_key(derived(master, realm, encode_utf8(age_purpose()), 32)))
}

/// The age identity text for a master key and realm.
pub open spec fn identity_text(master: Seq<u8>, realm: Seq<char>) -> Seq<char> {
    uppercase_of(
        bech32_text(
            seq!['a', 'g', 'e', '-', 's', 'e', 'c', 'r', 'e', 't', '-', 'k', 'e', 'y', '-'],
            derived(master, realm, encode_utf8(age_purpose()), 32),
        ),
    )
}

/// Relies on `x25519_dalek::StaticSecret::from` and `PublicKey::from`: the
/// public key of a secret scalar.
#[verifier::external_body]
fn x25519_public(secret: &[u8; 32]) -> (public: [u8; 32])
    ensures
        public@ == x25519_public_key(secret@),
{
    let secret = x25519_dalek::StaticSecret::from(*secret);
    x25519_dalek::PublicKey::from(&secret).to_bytes()
}

/// Relies on `bech32::ToBase32` and `bech32::encode` (variant Bech32), which
/// only refuses a human-readable part that is empty, longer than 83 bytes,
/// outside printable ASCII or of mixed case, and writes a lowercase
/// human-readable part as it is, then the separator '1'; `bech32::decode` and
/// `FromBase32` give the part and the bytes back (the padding bits are zero).
#[verifier::external_body]
fn bech32_encode(hrp: &str, data: &[u8]) -> (r: Option<String>)
    ensures
        bech32_hrp_ok(hrp@) ==> r is Some,
        bech32_hrp_ok(hrp@) ==> (r matches Some(s) ==> (hrp@ + seq!['1']).is_prefix_of(s@)),
        bech32_hrp_ok(hrp@) ==> (r matches Some(s) ==> bech32_payload(s@) == Some((hrp@, data@))),
        r matches Some(s) ==> s@ == bech32_text(hrp@, data@),
{
    bech32::encode(hrp, data.to_base32(), bech32::Variant::Bech32).ok()
}

/// Relies on `str::to_uppercase`.
#[verifier::external_body]
fn to_upper(s: &str) -> (r: String)
    ensures
        r@ == uppercase_of(s@),
{
    s.to_uppercase()
}

/// Relies on `bech32::decode` and `FromBase32` for bytes, as age reads its
/// keys: only the Bech32 variant is taken.
#[verifier::external_body]
fn bech32_decode(s: &str) -> (r: Option<(String, Vec<u8>)>)
    ensures
        match r {
            Some((hrp, data)) => bech32_payload(s@) == Some((hrp@, data@)),
            None => bech32_payload(s@) is None,
        },
{
    match bech32::decode(s).ok()? {
        (hrp, data, bech32::Variant::Bech32) => Some((hrp, Vec::<u8>::from_base32(&data).ok()?)),
        (_, _, bech32::Variant::Bech32m) => None,
    }
}

/// Thirty-two zero bytes.
pub open spec fn all_zero_key() -> Seq<u8> {
    Seq::new(32, |_i: int| 0u8)
}

/// Relies on `x25519_dalek::x25519`. It clamps the secret to a nonzero multiple
/// of the cofactor, below the orders of the prime subgroups of the curve and of
/// its twist, so the shared value is all zero exactly for small-order keys.
#[verifier::external_body]
fn x25519_shared(secret: &[u8; 32], public: &[u8; 32]) -> (shared: [u8; 32])
    ensures
        (shared@ == all_zero_key()) == x25519_low_order(public@),
{
    x25519_dalek::x25519(*secret, *public)
}

/// Whether a public key is of small order. Any secret tells, since X25519
/// clamps it; this one is all ones.
fn is_low_order(public: &[u8; 32]) -> (r: bool)
    ensures
        r == x25519_low_order(public@),
{
    let probe = [1u8; 32];
    let shared = x25519_shared(&probe, public);
    let mut i: usize = 0;
    while i < 32
        invariant
            i <= 32,
            (shared@ == all_zero_key()) == x25519_low_order(public@),
            forall|j: int| 0 <= j < i ==> shared@[j] == 0,
        decreases 32 - i,
    {
        if shared[i] != 0 {
            let ghost zeros = all_zero_key();
            assert(zeros[i as int] == 0u8);
            assert(shared@[i as int] != zeros[i as int]);
            assert(shared@ != zeros);
            return false;
        }
        i += 1;
    }
    assert(shared@ =~= all_zero_key());
    true
}

/// Relies on the `FromStr` of `age::x25519::Identity`.
#[verifier::external_body]
fn age_identity_valid(s: &str) -> (r: bool)
    ensures
        r == is_age_identity(s@),
{
    s.parse::<age::x25519::Identity>().is_ok()
}

/// The first line of a binary age file: "age-encryption.org/v1".
pub open spec fn binary_header() -> Seq<u8> {
    seq![
        0x61u8, 0x67u8, 0x65u8, 0x2du8, 0x65u8, 0x6eu8, 0x63u8, 0x72u8, 0x79u8, 0x70u8, 0x74u8, 0x69u8,
        0x6fu8, 0x6eu8, 0x2eu8, 0x6fu8, 0x72u8, 0x67u8, 0x2fu8, 0x76u8, 0x31u8,
    ]
}

/// Relies on `age::Encryptor::with_recipients` and its stream writer over a
/// vector, with each recipient parsed by age from its text. Writing to a vector
/// does not fail, and X25519 key wrapping only fails (by panicking) on a
/// small-order key. The file key and nonces are random, so only the header is
/// promised of the bytes.
#[verifier::external_body]
fn age_encrypt_to(recipients: &Vec<Recipient>, plaintext: &[u8]) -> (r: Option<Vec<u8>>)
    requires
        forall|i: int| 0 <= i < recipients@.len() ==> recipient_accepted(#[trigger] recipients@[i].text()),
    ensures
        recipients@.len() > 0 ==> r is Some,
        r matches Some(file) ==> binary_header().is_prefix_of(file@),
{
    let parsed = recipients.iter().map(|r| r.text.parse::<age::x25519::Recipient>());
    let boxed = parsed.map(|r| r.map(|x| Box::new(x) as Box<dyn age::Recipient + Send>));
    let mut out = vec![];
    let encryptor = age::Encryptor::with_recipients(boxed.collect::<Result<_, _>>().ok()?)?;
    let mut writer = encryptor.wrap_output(&mut out).ok()?;
    writer.write_all(plaintext).ok()?;
    writer.finish().ok()?;
    Some(out)
}

/// Relies on `age::Encryptor::with_user_passphrase` and its stream writer; the
/// salt, file key and nonces are random, so only the header is promised.
#[verifier::external_body]
fn age_encrypt_with_passphrase(passphrase: &str, plaintext: &[u8]) -> (r: Option<Vec<u8>>)
    ensures
        r matches Some(file) ==> binary_header().is_prefix_of(file@),
{
    let encryptor = age::Encryptor::with_user_passphrase(passphrase.to_string().into());
    let mut out = vec![];
    let mut writer = encryptor.wrap_output(&mut out).ok()?;
    writer.write_all(plaintext).ok()?;
    writer.finish().ok()?;
    Some(out)
}

/// Relies on `age::armor::ArmoredWriter` in ASCII-armor format over a vector,
/// which does not fail and starts with the BEGIN marker line.
#[verifier::external_body]
fn age_armor(file: &[u8]) -> (r: Option<Vec<u8>>)
    ensures
        r is Some,
        r matches Some(a) ==> a@ == age_armored(file@) && armor_begin().is_prefix_of(a@),
{
    let mut out = vec![];
    let format = age::armor::Format::AsciiArmor;
    let mut writer = age::armor::ArmoredWriter::wrap_output(&mut out, format).ok()?;
    writer.write_all(file).ok()?;
    writer.finish().ok()?;
    Some(out)
}

/// Relies on `age::Decryptor::new`: which variant the header gives, if any.
#[verifier::external_body]
fn age_sealing(file: &[u8]) -> (r: Option<Sealing>)
    ensures
        r == age_sealing_of(file@),
{
    match age::Decryptor::new(file) {
        Ok(age::Decryptor::Recipients(_)) => Some(Sealing::Recipients),
        Ok(age::Decryptor::Passphrase(_)) => Some(Sealing::Passphrase),
        Err(_) => None,
    }
}

/// Relies on `age::decryptor::RecipientsDecryptor::decrypt` with the identity
/// parsed from its text.
#[verifier::external_body]
fn age_decrypt_identity(identity: &str, file: &[u8]) -> (r: Option<Vec<u8>>)
    ensures
        r matches Some(p) ==> p@ == age_plaintext(identity@, file@),
{
    let identity: age::x25519::Identity = identity.parse().ok()?;
    let age::Decryptor::Recipients(d) = age::Decryptor::new(file).ok()? else { return None };
    let mut out = vec![];
    d.decrypt(std::iter::once(&identity as &dyn age::Identity)).ok()?.read_to_end(&mut out).ok()?;
    Some(out)
}

/// Relies on `age::decryptor::PassphraseDecryptor::decrypt` with the default
/// work-factor bound, which depends on this machine: nothing is promised of
/// the outcome.
#[verifier::external_body]
fn age_decrypt_passphrase(passphrase: &str, file: &[u8]) -> (r: Option<Vec<u8>>) {
    let age::Decryptor::Passphrase(d) = age::Decryptor::new(file).ok()? else { return None };
    let mut out = vec![];
    d.decrypt(&passphrase.to_string().into(), None).ok()?.read_to_end(&mut out).ok()?;
    Some(out)
}

/// The lines of a text, as `str::lines` splits them.
pub uninterp spec fn lines_of(text: Seq<char>) -> Seq<Seq<char>>;

/// Relies on `str::lines`.
#[verifier::external_body]
fn text_lines(text: &str) -> (lines: Vec<String>)
    ensures
        lines@.map_values(|l: String| l@) == lines_of(text@),
{
    text.lines().map(|l| l.to_string()).collect()
}

/// A recipients-file line that holds no recipient: blank or a comment.
pub open spec fn is_skipped_line(line: Seq<char>) -> bool {
    line.len() == 0 || line[0] == '#'
}

/// The recipient texts of a recipients file: its trimmed lines, without the
/// blank ones and the comments.
pub open spec fn recipient_lines(content: Seq<char>) -> Seq<Seq<char>> {
    lines_of(content).map_values(|l: Seq<char>| trimmed(l)).filter(|l: Seq<char>| !is_skipped_line(l))
}

proof fn lemma_literal_hrps_ok()
    ensures
        bech32_hrp_ok("age"@),
        bech32_hrp_ok("age-secret-key-"@),
{
    reveal_strlit("age");
    reveal_strlit("age-secret-key-");
}

/// The age recipient (public key) of a realm.
pub fn derive_recipient(seed: &Seed, realm: &str) -> (r: String)
    ensures
        r@ == recipient_text(seed@, realm@),
        seq!['a', 'g', 'e', '1'].is_prefix_of(r@),
        recipient_key_of(r@) == Some(x25519_public_key(derived(seed@, realm@, encode_utf8(age_purpose()), 32))),
{
    proof {
        reveal_strlit("age");
        lemma_literal_hrps_ok();
        assert("age"@ =~= age_purpose());
    }
    let mut raw = seed.derive_32(realm, "age");
    let public = x25519_public(&raw);
    wipe_key(&mut raw);
    match bech32_encode("age", public.as_slice()) {
        Some(s) => s,
        None => String::new(),
    }
}

/// The age identity (secret key) of a realm, in uppercase.
pub fn derive_identity(seed: &Seed, realm: &str) -> (r: String)
    ensures
        r@ == identity_text(seed@, realm@),
{
    proof {
        reveal_strlit("age");
        reveal_strlit("age-secret-key-");
        lemma_literal_hrps_ok();
        assert("age"@ =~= age_purpose());
        assert("age-secret-key-"@ =~= seq!['a', 'g', 'e', '-', 's', 'e', 'c', 'r', 'e', 't', '-', 'k', 'e', 'y', '-']);
    }
    let mut raw = seed.derive_32(realm, "age");
    let encoded = bech32_encode("age-secret-key-", raw.as_slice());
    wipe_key(&mut raw);
    match encoded {
        Some(s) => to_upper(s.as_str()),
        None => String::new(),
    }
}

/// Parses an age X25519 recipient: a Bech32 text with human-readable part
/// "age" and 32 data bytes, as age reads it.
pub fn parse_recipient(s: &str) -> (r: Result<Recipient, Error>)
    ensures
        r is Ok <==> recipient_key_of(s@) is Some,
        r matches Ok(rec) ==> rec.text() == s@ && Some(rec.key()) == recipient_key_of(s@),
        r is Err ==> r == Err::<Recipient, Error>(Error::InvalidRecipient),
{
    proof {
        reveal_strlit("age");
        assert("age"@ =~= seq!['a', 'g', 'e']);
    }
    let (hrp, data) = match bech32_decode(s) {
        Some(decoded) => decoded,
        None => return Err(Error::InvalidRecipient),
    };
    if !(hrp == "age".to_owned()) || data.len() != 32 {
        return Err(Error::InvalidRecipient);
    }
    let key: [u8; 32] = to_array(data.as_slice());
    Ok(Recipient { text: s.to_owned(), key })
}

/// Parses the recipients listed in the contents of a recipients file, one per
/// line; blank lines and lines starting with '#' are skipped.
pub fn parse_recipients_file(content: &str) -> (r: Result<Vec<Recipient>, Error>)
    ensures
        r is Ok <==> forall|i: int|
            0 <= i < recipient_lines(content@).len() ==> recipient_key_of(#[trigger] recipient_lines(content@)[i]) is Some,
        r matches Ok(v) ==> v@.len() == recipient_lines(content@).len() && forall|i: int|
            0 <= i < v@.len() ==> (#[trigger] v@[i]).text() == recipient_lines(content@)[i],
        r is Err ==> r == Err::<Vec<Recipient>, Error>(Error::InvalidRecipient),
{
    let lines = text_lines(content);
    let ghost texts = lines@.map_values(|l: String| l@).map_values(|l: Seq<char>| trimmed(l));
    let ghost keep = |l: Seq<char>| !is_skipped_line(l);
    assert(recipient_lines(content@) == texts.filter(keep));
    let mut out: Vec<Recipient> = Vec::new();
    let mut i: usize = 0;
    while i < lines.len()
        invariant
            i <= lines@.len(),
            texts == lines@.map_values(|l: String| l@).map_values(|l: Seq<char>| trimmed(l)),
            keep == (|l: Seq<char>| !is_skipped_line(l)),
            recipient_lines(content@) == texts.filter(keep),
            out@.len() == texts.subrange(0, i as int).filter(keep).len(),
            forall|j: int|
                0 <= j < out@.len() ==> (#[trigger] out@[j]).text() == texts.subrange(0, i as int).filter(keep)[j],
            forall|j: int|
                0 <= j < texts.subrange(0, i as int).filter(keep).len() ==> recipient_key_of(
                    #[trigger] texts.subrange(0, i as int).filter(keep)[j],
                ) is Some,
        decreases lines@.len() - i,
    {
        let ghost before = texts.subrange(0, i as int);
        let ghost after = texts.subrange(0, i + 1);
        assert(after.drop_last() =~= before);
        reveal(Seq::filter);
        let line = trim_ends(lines[i].as_str());
        assert(line@ == texts[i as int]);
        if !(line.is_empty() || line.get_char(0) == '#') {
            match parse_recipient(line) {
                Ok(recipient) => out.push(recipient),
                Err(e) => {
                    assert(keep(line@));
                    assert(after.filter(keep) == before.filter(keep).push(line@));
                    assert(after.filter(keep).last() == line@);
                    proof {
                        let tail = texts.subrange(i + 1, texts.len() as int);
                        assert(texts =~= after + tail);
                        Seq::filter_distributes_over_add(after, tail, keep);
                        let k = after.filter(keep).len() - 1;
                        assert(texts.filter(keep)[k] == line@);
                        assert(recipient_key_of(recipient_lines(content@)[k]) is None);
                    }
                    return Err(e);
                },
            }
        }
        i += 1;
    }
    assert(texts.subrange(0, lines@.len() as int) =~= texts);
    Ok(out)
}

/// Wraps an encrypted file in ASCII armor when asked to.
fn armor_if(file: Vec<u8>, armor: bool) -> (r: Result<Vec<u8>, Error>)
    ensures
        !armor ==> r == Ok::<Vec<u8>, Error>(file),
        armor ==> (r is Ok && r->Ok_0@ == age_armored(file@) && armor_begin().is_prefix_of(r->Ok_0@)),
{
    if armor {
        match age_armor(file.as_slice()) {
            Some(a) => Ok(a),
            None => Err(Error::Encryption),
        }
    } else {
        Ok(file)
    }
}

/// Encrypts to a list of recipients, in ASCII armor when asked to. A
/// recipient key of small order is refused, since no key agreement with it
/// can keep the file secret.
pub fn encrypt(recipients: Vec<Recipient>, armor: bool, plaintext: &[u8]) -> (r: Result<Vec<u8>, Error>)
    ensures
        recipients@.len() == 0 <==> r == Err::<Vec<u8>, Error>(Error::NoRecipients),
        recipients@.len() > 0 ==> ((exists|i: int|
            0 <= i < recipients@.len() && x25519_low_order(#[trigger] recipients@[i].key())) <==> r
            == Err::<Vec<u8>, Error>(Error::LowOrderRecipient)),
        (recipients@.len() > 0 && forall|i: int|
            0 <= i < recipients@.len() ==> !x25519_low_order(#[trigger] recipients@[i].key())) ==> r is Ok,
        r matches Ok(file) ==> if armor {
            armor_begin().is_prefix_of(file@)
        } else {
            binary_header().is_prefix_of(file@)
        },
{
    if recipients.len() == 0 {
        return Err(Error::NoRecipients);
    }
    let mut i: usize = 0;
    while i < recipients.len()
        invariant
            i <= recipients@.len(),
            forall|j: int| 0 <= j < i ==> recipient_accepted(#[trigger] recipients@[j].text()),
            forall|j: int| 0 <= j < i ==> !x25519_low_order(#[trigger] recipients@[j].key()),
        decreases recipients@.len() - i,
    {
        if recipients[i].key_is_low_order() {
            return Err(Error::LowOrderRecipient);
        }
        i += 1;
    }
    match age_encrypt_to(&recipients, plaintext) {
        Some(file) => armor_if(file, armor),
        None => Err(Error::Encryption),
    }
}

/// Encrypts with a passphrase, in ASCII armor when asked to.
pub fn encrypt_passphrase(passphrase: &str, armor: bool, plaintext: &[u8]) -> (r: Result<Vec<u8>, Error>)
    ensures
        r is Err ==> r == Err::<Vec<u8>, Error>(Error::Encryption),
        r matches Ok(file) ==> if armor {
            armor_begin().is_prefix_of(file@)
        } else {
            binary_header().is_prefix_of(file@)
        },
{
    match age_encrypt_with_passphrase(passphrase, plaintext) {
        Some(file) => armor_if(file, armor),
        None => Err(Error::Encryption),
    }
}

/// Decrypts a file sealed to recipients with an identity given as text.
pub fn decrypt(identity: &str, ciphertext: &[u8]) -> (r: Result<Vec<u8>, Error>)
    ensures
        !is_age_identity(identity@) ==> r == Err::<Vec<u8>, Error>(Error::InvalidIdentity),
        is_age_identity(identity@) ==> match age_sealing_of(ciphertext@) {
            None => r == Err::<Vec<u8>, Error>(Error::Decryption),
            Some(Sealing::Passphrase) => r == Err::<Vec<u8>, Error>(Error::PassphraseSealed),
            Some(Sealing::Recipients) => match r {
                Ok(p) => p@ == age_plaintext(identity@, ciphertext@),
                Err(e) => e == Error::Decryption,
            },
        },
{
    if !age_identity_valid(identity) {
        return Err(Error::InvalidIdentity);
    }
    match age_sealing(ciphertext) {
        None => Err(Error::Decryption),
        Some(Sealing::Passphrase) => Err(Error::PassphraseSealed),
        Some(Sealing::Recipients) => match age_decrypt_identity(identity, ciphertext) {
            Some(p) => Ok(p),
            None => Err(Error::Decryption),
        },
    }
}

/// Decrypts a file sealed to recipients with the identity held, surrounded by
/// whitespace, in the contents of a key file.
pub fn decrypt_with_file(key_content: &str, ciphertext: &[u8]) -> (r: Result<Vec<u8>, Error>)
    ensures
        !is_age_identity(trimmed(key_content@)) ==> r == Err::<Vec<u8>, Error>(Error::InvalidIdentity),
        is_age_identity(trimmed(key_content@)) ==> match age_sealing_of(ciphertext@) {
            None => r == Err::<Vec<u8>, Error>(Error::Decryption),
            Some(Sealing::Passphrase) => r == Err::<Vec<u8>, Error>(Error::PassphraseSealed),
            Some(Sealing::Recipients) => match r {
                Ok(p) => p@ == age_plaintext(trimmed(key_content@), ciphertext@),
                Err(e) => e == Error::Decryption,
            },
        },
{
    decrypt(trim_ends(key_content), ciphertext)
}

/// Decrypts a file sealed with a passphrase.
pub fn decrypt_passphrase(passphrase: &str, ciphertext: &[u8]) -> (r: Result<Vec<u8>, Error>)
    ensures
        age_sealing_of(ciphertext@) is None ==> r == Err::<Vec<u8>, Error>(Error::Decryption),
        age_sealing_of(ciphertext@) == Some(Sealing::Recipients) ==> r == Err::<Vec<u8>, Error>(
            Error::RecipientsSealed,
        ),
        r is Err ==> r == Err::<Vec<u8>, Error>(Error::Decryption) || r == Err::<Vec<u8>, Error>(
            Error::RecipientsSealed,
        ),
{
    match age_sealing(ciphertext) {
        None => Err(Error::Decryption),
        Some(Sealing::Recipients) => Err(Error::RecipientsSealed),
        Some(Sealing::Passphrase) => match age_decrypt_passphrase(passphrase, ciphertext) {
            Some(p) => Ok(p),
            None => Err(Error::Decryption),
        },
    }
}

} // verus!
