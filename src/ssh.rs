//! OpenSSH keys derived from the master key.
use crate::seed::{derived, wipe_key, Seed};
use crate::sign::{ed25519_public, ed25519_public_key};
use crate::text::{decimal, decimal_bytes, string_from_utf8};
use vstd::prelude::*;
use vstd::string::StringExecFns;
use vstd::utf8::{decode_utf8, encode_utf8};

verus! {

/// The OpenSSH private-key file (LF line endings, no passphrase, empty
/// comment) of an Ed25519 secret key.
pub uninterp spec fn openssh_private_text(secret: Seq<u8>) -> Seq<char>;

/// The OpenSSH public-key line ("ssh-ed25519 <base64>") of an Ed25519 public key.
pub uninterp spec fn openssh_public_text(public: Seq<u8>) -> Seq<char>;

/// Relies on `ssh_key::PrivateKey::from` an `Ed25519Keypair` and
/// `PrivateKey::to_openssh`; its check integers come from the key itself, and
/// an unencrypted Ed25519 key always encodes.
#[verifier::external_body]
fn openssh_private(secret: &[u8; 32]) -> (r: Option<String>)
    ensures
        r is Some,
        r matches Some(s) ==> s@ == openssh_private_text(secret@),
{
    let signing_key = ed25519_dalek::SigningKey::from_bytes(secret);
    let keypair = ssh_key::private::Ed25519Keypair {
        public: ssh_key::public::Ed25519PublicKey::from(signing_key.verifying_key()),
        private: ssh_key::private::Ed25519PrivateKey::from(signing_key),
    };
    let text = ssh_key::PrivateKey::from(keypair).to_openssh(ssh_key::LineEnding::LF).ok()?;
    Some(text.to_string())
}

/// Relies on `ssh_key::PublicKey::from` an `Ed25519PublicKey` and
/// `PublicKey::to_openssh`, which always encodes an Ed25519 key as the
/// algorithm name, a space and the base64 key data (the comment is empty).
#[verifier::external_body]
fn openssh_public(public: &[u8; 32]) -> (r: Option<String>)
    ensures
        r is Some,
        r matches Some(s) ==> s@ == openssh_public_text(public@) && ssh_ed25519_prefix().is_prefix_of(s@),
{
    let key = ssh_key::PublicKey::from(ssh_key::public::Ed25519PublicKey(*public));
    key.to_openssh().ok()
}

/// The start of an Ed25519 public key line: "ssh-ed25519 ".
pub open spec fn ssh_ed25519_prefix() -> Seq<char> {
    seq!['s', 's', 'h', '-', 'e', 'd', '2', '5', '5', '1', '9', ' ']
}

/// The purpose of SSH keys: "ssh".
pub open spec fn ssh_purpose() -> Seq<char> {
    seq!['s', 's', 'h']
}

/// The SSH secret key of a realm.
pub open spec fn ssh_secret(master: Seq<u8>, realm: Seq<char>) -> Seq<u8> {
    derived(master, realm, encode_utf8(ssh_purpose()), 32)
}

/// The comment put after a realm's public key: "1seed:" + realm.
pub open spec fn key_comment(realm: Seq<char>) -> Seq<char> {
    seq!['1', 's', 'e', 'e', 'd', ':'] + realm
}

/// The OpenSSH private key of a realm.
pub fn derive_private(seed: &Seed, realm: &str) -> (r: String)
    ensures
        r@ == openssh_private_text(ssh_secret(seed@, realm@)),
{
    proof {
        reveal_strlit("ssh");
        assert("ssh"@ =~= ssh_purpose());
    }
    let mut secret = seed.derive_32(realm, "ssh");
    let text = openssh_private(&secret);
    wipe_key(&mut secret);
    match text {
        Some(s) => s,
        None => String::new(),
    }
}

/// The OpenSSH public key line of a realm, with the comment "1seed:" + realm.
pub fn derive_public(seed: &Seed, realm: &str) -> (r: String)
    ensures
        r@ == openssh_public_text(ed25519_public_key(ssh_secret(seed@, realm@))) + seq![' '] + key_comment(realm@),
        ssh_ed25519_prefix().is_prefix_of(r@),
{
    proof {
        reveal_strlit("ssh");
        reveal_strlit(" 1seed:");
        assert("ssh"@ =~= ssh_purpose());
    }
    let mut secret = seed.derive_32(realm, "ssh");
    let public = ed25519_public(&secret);
    wipe_key(&mut secret);
    match openssh_public(&public) {
        Some(line) => {
            let with_tag = line.concat(" 1seed:");
            let out = with_tag.concat(realm);
            assert(out@ =~= openssh_public_text(ed25519_public_key(ssh_secret(seed@, realm@))) + seq![' ']
                + key_comment(realm@));
            out
        },
        None => String::new(),
    }
}

/// The arguments of `ssh-add` that reads a key from standard input, with an
/// optional lifetime in seconds and an optional confirmation on each use.
pub open spec fn agent_arg_texts(lifetime: Option<u32>, confirm: bool) -> Seq<Seq<char>> {
    let head = seq![seq!['-']];
    let timed = match lifetime {
        Some(t) => head + seq![seq!['-', 't'], decode_utf8(decimal(t as nat))],
        None => head,
    };
    if confirm {
        timed + seq![seq!['-', 'c']]
    } else {
        timed
    }
}

/// Builds the arguments of `ssh-add`.
pub fn agent_args(lifetime: Option<u32>, confirm: bool) -> (args: Vec<String>)
    ensures
        args@.map_values(|a: String| a@) == agent_arg_texts(lifetime, confirm),
{
    proof {
        reveal_strlit("-");
        reveal_strlit("-t");
        reveal_strlit("-c");
        assert("-"@ =~= seq!['-']);
        assert("-t"@ =~= seq!['-', 't']);
        assert("-c"@ =~= seq!['-', 'c']);
    }
    let mut args: Vec<String> = Vec::new();
    args.push("-".to_owned());
    if let Some(t) = lifetime {
        args.push("-t".to_owned());
        let digits = decimal_bytes(t);
        proof {
            crate::text::lemma_decimal_ascii(t as nat);
            crate::password::lemma_ascii_decodes(digits@);
        }
        match string_from_utf8(digits) {
            Some(s) => args.push(s),
            None => {},
        }
    }
    if confirm {
        args.push("-c".to_owned());
    }
    assert(args@.map_values(|a: String| a@) =~= agent_arg_texts(lifetime, confirm));
    args
}

} // verus!
