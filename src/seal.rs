//! Public-key sealing of message payloads with PKCS#1 v1.5 encryption.
use vstd::prelude::*;

verus! {

#[verifier::external_type_specification]
#[verifier::external_body]
pub struct ExRsaPublicKey(rsa::RsaPublicKey);

#[verifier::external_type_specification]
#[verifier::external_body]
pub struct ExRsaPrivateKey(rsa::RsaPrivateKey);

#[verifier::external_type_specification]
#[verifier::external_body]
pub struct ExRsaError(rsa::errors::Error);

/// The byte length of the modulus of a public key.
pub uninterp spec fn modulus_size(key: rsa::RsaPublicKey) -> nat;

/// Relies on rsa's `PublicKeyParts::size`: the byte length of the modulus.
#[verifier::external_body]
pub(crate) fn public_key_size(key: &rsa::RsaPublicKey) -> (r: usize)
    ensures
        r as nat == modulus_size(*key),
{
    rsa::PublicKeyParts::size(key)
}

/// Relies on rsa's `PublicKey::encrypt` with `Pkcs1v15Encrypt` and a fresh
/// thread-local random generator: a message longer than the modulus size less
/// eleven bytes is refused, and a ciphertext is exactly as long as the
/// modulus. It subtracts eleven from the modulus size unchecked, hence the
/// bound.
#[verifier::external_body]
pub(crate) fn encrypt_pkcs1v15(key: &rsa::RsaPublicKey, msg: &[u8]) -> (r: Result<
    Vec<u8>,
    rsa::errors::Error,
>)
    requires
        modulus_size(*key) >= 11,
    ensures
        msg@.len() + 11 > modulus_size(*key) ==> r is Err,
        r is Ok ==> r->Ok_0@.len() == modulus_size(*key),
{
    let mut rng = rand::thread_rng();
    rsa::PublicKey::encrypt(key, &mut rng, rsa::Pkcs1v15Encrypt, msg)
}

/// The plaintext that PKCS#1 v1.5 decryption with `key` recovers from
/// `ciphertext`, or `None` where it refuses the ciphertext.
pub uninterp spec fn pkcs1v15_decrypted(key: rsa::RsaPrivateKey, ciphertext: Seq<u8>) -> Option<
    Seq<u8>,
>;

/// Relies on rsa's `RsaPrivateKey::decrypt` with `Pkcs1v15Encrypt`: it draws
/// no random numbers, so its outcome depends on the key and the ciphertext
/// alone.
#[verifier::external_body]
pub(crate) fn decrypt_pkcs1v15(key: &rsa::RsaPrivateKey, ciphertext: &[u8]) -> (r: Result<
    Vec<u8>,
    rsa::errors::Error,
>)
    ensures
        r is Ok <==> pkcs1v15_decrypted(*key, ciphertext@) is Some,
        r is Ok ==> r->Ok_0@ == pkcs1v15_decrypted(*key, ciphertext@)->Some_0,
{
    key.decrypt(rsa::Pkcs1v15Encrypt, ciphertext)
}

} // verus!
