//! The master key: stretched from a passphrase or taken from a binary seed,
//! expanded with HKDF-SHA256 along "v1/<realm>/<purpose>", and wiped on drop.
use crate::error::Error;
use crate::text::{append_bytes, to_array, wipe_bytes};
use vstd::prelude::*;
use crate::text::lemma_prefix_distinguishes;
use vstd::utf8::{encode_utf8, encode_utf8_decode_utf8};
use zeroize::Zeroize;

verus! {

/// Size in bytes of the master key.
pub const MASTER_LEN: usize = 32;

/// Largest output HKDF-SHA256 can expand to: 255 blocks of 32 bytes.
pub const MAX_DERIVE_LEN: usize = 8160;

/// scrypt block size parameter.
pub const SCRYPT_R: u32 = 8;

/// scrypt parallelism parameter.
pub const SCRYPT_P: u32 = 1;

/// The HKDF-SHA256 output (extract with no salt, then expand) for the given
/// input key material, context and length.
pub uninterp spec fn hkdf_sha256(ikm: Seq<u8>, info: Seq<u8>, len: nat) -> Seq<u8>;

/// The 32-byte scrypt output for a password, salt and cost parameters.
pub uninterp spec fn scrypt_key(password: Seq<u8>, salt: Seq<u8>, log_n: u8, r: u32, p: u32) -> Seq<u8>;

/// What `String::from_utf8_lossy` makes of a byte sequence.
pub uninterp spec fn utf8_lossy(bytes: Seq<u8>) -> Seq<char>;

/// What `str::trim` leaves of a string.
pub uninterp spec fn trimmed(s: Seq<char>) -> Seq<char>;

/// Relies on `hkdf::Hkdf::<Sha256>::new` and `Hkdf::expand`: HKDF-SHA256 with
/// no salt; the expansion fails exactly when more than 255 * 32 bytes are asked for.
#[verifier::external_body]
fn hkdf_expand(ikm: &[u8; 32], info: &[u8], len: usize) -> (r: Option<Vec<u8>>)
    ensures
        r is Some <==> len <= 255 * 32,
        r matches Some(okm) ==> okm@ == hkdf_sha256(ikm@, info@, len as nat) && okm@.len() == len,
{
    let mut okm = vec![0u8; len];
    match hkdf::Hkdf::<sha2::Sha256>::new(None, ikm).expand(info, &mut okm) {
        Ok(()) => Some(okm),
        Err(_) => None,
    }
}

/// Relies on `scrypt::Params::new` and `scrypt::scrypt` with a 32-byte output:
/// with r = 8, p = 1 and log_n at most 20 every check of `Params::new` passes,
/// and `scrypt` does not fail on a 32-byte output.
#[verifier::external_body]
fn scrypt_32(password: &[u8], salt: &[u8], log_n: u8, r: u32, p: u32) -> (out: Option<[u8; 32]>)
    ensures
        (r == 8 && p == 1 && log_n <= 20) ==> out is Some,
        out matches Some(k) ==> k@ == scrypt_key(password@, salt@, log_n, r, p),
{
    let params = scrypt::Params::new(log_n, r, p, 32).ok()?;
    let mut key = [0u8; 32];
    scrypt::scrypt(password, salt, &params, &mut key).ok()?;
    Some(key)
}

/// Relies on `String::from_utf8_lossy`, which leaves valid UTF-8 as it is.
#[verifier::external_body]
fn decode_lossy(bytes: &[u8]) -> (s: String)
    ensures
        s@ == utf8_lossy(bytes@),
{
    String::from_utf8_lossy(bytes).into_owned()
}

/// Relies on `str::trim`: leading and trailing whitespace removed.
#[verifier::external_body]
pub(crate) fn trim_ends(s: &str) -> (t: &str)
    ensures
        t@ == trimmed(s@),
{
    s.trim()
}

/// Relies on `zeroize::Zeroize` for byte arrays: every byte becomes zero.
#[verifier::external_body]
pub(crate) fn wipe_key(key: &mut [u8; 32])
    ensures
        final(key)@ == Seq::new(32, |_i: int| 0u8),
    opens_invariants none
    no_unwind
{
    key.zeroize();
}

/// Cost tier of the stretching function. The reduced tier exists for tests
/// and is only ever chosen by an explicit argument.
#[derive(Debug, Clone, Copy, PartialEq, Eq, Structural)]
pub enum StretchCost {
    Production,
    Reduced,
}

/// The scrypt work-factor exponent of a tier.
pub open spec fn work_factor(cost: StretchCost) -> u8 {
    match cost {
        StretchCost::Production => 20,
        StretchCost::Reduced => 12,
    }
}

impl StretchCost {
    pub fn log_n(&self) -> (n: u8)
        ensures
            n == work_factor(*self),
    {
        match self {
            StretchCost::Production => 20,
            StretchCost::Reduced => 12,
        }
    }
}

/// The application salt of the stretching function: the bytes of "1seed".
pub open spec fn stretch_salt() -> Seq<u8> {
    seq![0x31u8, 0x73u8, 0x65u8, 0x65u8, 0x64u8]
}

/// The master key stretched from a low-entropy secret.
pub open spec fn stretched(secret: Seq<u8>, cost: StretchCost) -> Seq<u8> {
    scrypt_key(secret, stretch_salt(), work_factor(cost), 8, 1)
}

/// A byte counts as text when it is printable ASCII (32 ..= 127).
pub open spec fn is_printable(b: u8) -> bool {
    32 <= b <= 127
}

/// Secret bytes are taken as a binary seed when there are at least 32 of them
/// and one of them is not printable ASCII.
pub open spec fn is_binary_seed(bytes: Seq<u8>) -> bool {
    bytes.len() >= 32 && exists|i: int| 0 <= i < bytes.len() && !is_printable(#[trigger] bytes[i])
}

/// The passphrase that textual secret bytes stand for.
pub open spec fn passphrase_of(bytes: Seq<u8>) -> Seq<char> {
    trimmed(utf8_lossy(bytes))
}

/// The master key that raw secret bytes give.
pub open spec fn master_from_secret(bytes: Seq<u8>, cost: StretchCost) -> Seq<u8> {
    if is_binary_seed(bytes) {
        bytes.subrange(0, 32)
    } else {
        stretched(encode_utf8(passphrase_of(bytes)), cost)
    }
}

/// The context string of a derivation: "v1/" + realm + "/" + purpose.
pub open spec fn derivation_path(realm: Seq<char>, purpose: Seq<u8>) -> Seq<u8> {
    seq![0x76u8, 0x31u8, 0x2fu8] + encode_utf8(realm) + seq![0x2fu8] + purpose
}

/// The bytes derived from a master key along a realm and purpose.
pub open spec fn derived(master: Seq<u8>, realm: Seq<char>, purpose: Seq<u8>, len: nat) -> Seq<u8> {
    hkdf_sha256(master, derivation_path(realm, purpose), len)
}

fn path_bytes(realm: &str, purpose: &[u8]) -> (p: Vec<u8>)
    ensures
        p@ == derivation_path(realm@, purpose@),
{
    let mut p: Vec<u8> = vec![0x76u8, 0x31u8, 0x2fu8];
    append_bytes(&mut p, realm.as_bytes());
    p.push(0x2fu8);
    append_bytes(&mut p, purpose);
    assert(p@ =~= derivation_path(realm@, purpose@));
    p
}

/// A master key, owned by one derivation session and wiped when dropped.
pub struct Seed {
    master: [u8; 32],
}

impl View for Seed {
    type V = Seq<u8>;

    closed spec fn view(&self) -> Seq<u8> {
        self.master@
    }
}

impl Seed {
    /// Stretches a passphrase into a master key with scrypt at the given tier.
    pub fn from_passphrase(passphrase: &str, cost: StretchCost) -> (r: Result<Seed, Error>)
        ensures
            r matches Ok(s) && s@ == stretched(encode_utf8(passphrase@), cost),
    {
        let salt: [u8; 5] = [0x31u8, 0x73u8, 0x65u8, 0x65u8, 0x64u8];
        assert(salt@ =~= stretch_salt());
        let log_n = cost.log_n();
        match scrypt_32(passphrase.as_bytes(), &salt, log_n, SCRYPT_R, SCRYPT_P) {
            Some(master) => Ok(Seed { master }),
            None => Err(Error::WorkFactor(log_n)),
        }
    }

    /// Builds a master key from the bytes of a seed file: a binary seed gives
    /// its first 32 bytes; anything else is read as text, trimmed, and stretched.
    pub fn from_file(bytes: &[u8], cost: StretchCost) -> (r: Result<Seed, Error>)
        ensures
            r matches Ok(s) && s@ == master_from_secret(bytes@, cost),
    {
        let mut binary = false;
        if bytes.len() >= MASTER_LEN {
            let mut i: usize = 0;
            while i < bytes.len()
                invariant
                    i <= bytes@.len(),
                    binary <==> exists|j: int| 0 <= j < i && !is_printable(#[trigger] bytes@[j]),
                decreases bytes@.len() - i,
            {
                if bytes[i] < 32 || bytes[i] > 127 {
                    binary = true;
                }
                i += 1;
            }
        }
        if binary {
            let mut master = [0u8; 32];
            let mut k: usize = 0;
            while k < MASTER_LEN
                invariant
                    k <= 32,
                    bytes@.len() >= 32,
                    forall|j: int| 0 <= j < k ==> master@[j] == bytes@[j],
                decreases 32 - k,
            {
                master[k] = bytes[k];
                k += 1;
            }
            assert(master@ =~= bytes@.subrange(0, 32));
            Ok(Seed { master })
        } else {
            let text = decode_lossy(bytes);
            let passphrase = trim_ends(text.as_str());
            Seed::from_passphrase(passphrase, cost)
        }
    }

    /// Derives `length` bytes for a realm and a purpose given as bytes.
    pub fn derive_for(&self, realm: &str, purpose: &[u8], length: usize) -> (r: Result<Vec<u8>, Error>)
        ensures
            length <= MAX_DERIVE_LEN ==> (r matches Ok(v) && v@ == derived(self@, realm@, purpose@, length as nat)
                && v@.len() == length),
            length > MAX_DERIVE_LEN ==> r == Err::<Vec<u8>, Error>(Error::DerivationLength(length)),
    {
        if length > MAX_DERIVE_LEN {
            return Err(Error::DerivationLength(length));
        }
        let path = path_bytes(realm, purpose);
        match hkdf_expand(&self.master, path.as_slice(), length) {
            Some(okm) => Ok(okm),
            None => Err(Error::DerivationLength(length)),
        }
    }

    /// Derives `length` bytes for a realm and a key type.
    pub fn derive(&self, realm: &str, key_type: &str, length: usize) -> (r: Result<Vec<u8>, Error>)
        ensures
            length <= MAX_DERIVE_LEN ==> (r matches Ok(v) && v@ == derived(self@, realm@, encode_utf8(key_type@), length as nat)
                && v@.len() == length),
            length > MAX_DERIVE_LEN ==> r == Err::<Vec<u8>, Error>(Error::DerivationLength(length)),
    {
        self.derive_for(realm, key_type.as_bytes(), length)
    }

    /// Derives a 32-byte key for a realm and a key type.
    pub fn derive_32(&self, realm: &str, key_type: &str) -> (k: [u8; 32])
        ensures
            k@ == derived(self@, realm@, encode_utf8(key_type@), 32),
    {
        match self.derive(realm, key_type, 32) {
            Ok(mut v) => {
                let k: [u8; 32] = to_array(v.as_slice());
                wipe_bytes(&mut v);
                k
            },
            Err(_) => [0u8; 32],
        }
    }
}

/// Derivation is deterministic: two seeds stretched from the same secret at
/// the same cost give the same bytes for every realm, purpose and length.
pub proof fn lemma_derivation_deterministic(
    a: &Seed,
    b: &Seed,
    secret: Seq<char>,
    cost: StretchCost,
    realm: Seq<char>,
    purpose: Seq<char>,
    len: nat,
)
    requires
        a@ == stretched(encode_utf8(secret), cost),
        b@ == stretched(encode_utf8(secret), cost),
    ensures
        derived(a@, realm, encode_utf8(purpose), len) == derived(b@, realm, encode_utf8(purpose), len),
{
}

/// Distinct realms give distinct HKDF contexts for the same purpose, so their
/// derivations are separate inputs of the one-way expansion.
pub proof fn lemma_realms_separate_contexts(realm1: Seq<char>, realm2: Seq<char>, purpose: Seq<char>)
    requires
        realm1 != realm2,
    ensures
        derivation_path(realm1, encode_utf8(purpose)) != derivation_path(realm2, encode_utf8(purpose)),
{
    let e1 = encode_utf8(realm1);
    let e2 = encode_utf8(realm2);
    encode_utf8_decode_utf8(realm1);
    encode_utf8_decode_utf8(realm2);
    assert(e1 != e2);
    let p1 = derivation_path(realm1, encode_utf8(purpose));
    let p2 = derivation_path(realm2, encode_utf8(purpose));
    if p1 == p2 {
        if e1.len() == e2.len() {
            assert(p1.subrange(3, 3 + e1.len() as int) =~= e1);
            assert(p2.subrange(3, 3 + e2.len() as int) =~= e2);
        } else {
            assert(p1.len() != p2.len());
        }
    }
}

/// Distinct purposes give distinct HKDF contexts in the same realm.
pub proof fn lemma_purposes_separate_contexts(realm: Seq<char>, purpose1: Seq<char>, purpose2: Seq<char>)
    requires
        purpose1 != purpose2,
    ensures
        derivation_path(realm, encode_utf8(purpose1)) != derivation_path(realm, encode_utf8(purpose2)),
{
    encode_utf8_decode_utf8(purpose1);
    encode_utf8_decode_utf8(purpose2);
    lemma_prefix_distinguishes(
        seq![0x76u8, 0x31u8, 0x2fu8] + encode_utf8(realm) + seq![0x2fu8],
        encode_utf8(purpose1),
        encode_utf8(purpose2),
    );
}

impl Drop for Seed {
    /// Overwrites the master key with zeros.
    fn drop(&mut self)
        ensures
            final(self)@ == Seq::new(32, |_i: int| 0u8),
        opens_invariants none
        no_unwind
    {
        wipe_key(&mut self.master);
    }
}

} // verus!
