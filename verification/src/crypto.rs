//! The cryptographic functions of `dryoc` that the DNSCrypt client calls.

use vstd::prelude::*;

verus! {

/// What `dryoc` reports when a call fails.
#[verifier::external_type_specification]
#[verifier::external_body]
pub struct ExDryocError(dryoc::Error);

/// What `crypto_secretbox_easy` makes of a message.
pub uninterp spec fn secretbox(message: Seq<u8>, nonce: Seq<u8>, key: Seq<u8>) -> Seq<u8>;

/// What `crypto_secretbox_open_easy` makes of a ciphertext; `None` if the
/// ciphertext is not authentic.
pub uninterp spec fn secretbox_open(
    ciphertext: Seq<u8>,
    nonce: Seq<u8>,
    key: Seq<u8>,
) -> Option<Seq<u8>>;

/// What `crypto_box_beforenm` makes of a public and a secret key.
pub uninterp spec fn box_shared_key(public_key: Seq<u8>, secret_key: Seq<u8>) -> Seq<u8>;

/// The public key that `StackKeyPair::gen` computes for a secret key.
pub uninterp spec fn box_public_key(secret_key: Seq<u8>) -> Seq<u8>;

/// `dryoc::classic::crypto_secretbox::crypto_secretbox_easy` fills the
/// ciphertext with the tag and the encrypted message. It does not fail, and
/// opening the ciphertext with the same nonce and key gives the message back.
#[verifier::external_body]
pub(crate) fn seal(
    ciphertext: &mut [u8],
    message: &[u8],
    nonce: &[u8; 24],
    key: &[u8; 32],
) -> (r: Result<(), dryoc::Error>)
    requires
        old(ciphertext)@.len() == message@.len() + 16,
    ensures
        r is Ok,
        final(ciphertext)@.len() == old(ciphertext)@.len(),
        final(ciphertext)@ == secretbox(message@, nonce@, key@),
        secretbox_open(final(ciphertext)@, nonce@, key@) == Some(message@),
{
    dryoc::classic::crypto_secretbox::crypto_secretbox_easy(ciphertext, message, nonce, key)
}

/// `dryoc::classic::crypto_secretbox::crypto_secretbox_open_easy` fails if the
/// tag does not fit the rest of the ciphertext, and else fills the message with
/// what was encrypted: encrypting it again with the same nonce and key gives
/// the ciphertext.
#[verifier::external_body]
pub(crate) fn unseal(
    message: &mut [u8],
    ciphertext: &[u8],
    nonce: &[u8; 24],
    key: &[u8; 32],
) -> (r: Result<(), dryoc::Error>)
    requires
        old(message)@.len() + 16 == ciphertext@.len(),
    ensures
        r is Ok <==> secretbox_open(ciphertext@, nonce@, key@) is Some,
        final(message)@.len() == old(message)@.len(),
        r is Ok ==> secretbox_open(ciphertext@, nonce@, key@) == Some(final(message)@),
        r is Ok ==> secretbox(final(message)@, nonce@, key@) == ciphertext@,
{
    dryoc::classic::crypto_secretbox::crypto_secretbox_open_easy(message, ciphertext, nonce, key)
}

/// `dryoc::classic::crypto_box::crypto_box_beforenm` computes the key that the
/// holders of the two keys share.
#[verifier::external_body]
pub(crate) fn share_key(public_key: &[u8; 32], secret_key: &[u8; 32]) -> (r: [u8; 32])
    ensures
        r@ == box_shared_key(public_key@, secret_key@),
{
    dryoc::classic::crypto_box::crypto_box_beforenm(public_key, secret_key)
}

/// `dryoc::rng::randombytes_buf` returns as many bytes as asked for, from the
/// random number generator of the system. Which bytes, is open.
pub assume_specification[ dryoc::rng::randombytes_buf ](len: usize) -> (r: Vec<u8>)
    ensures
        r@.len() == len,
;

/// `dryoc::keypair::StackKeyPair::gen` draws a secret key at random and computes
/// the public key that belongs to it: the public key, then the secret key.
/// Which secret key, is open.
#[verifier::external_body]
pub(crate) fn generate_keypair() -> (r: ([u8; 32], [u8; 32]))
    ensures
        r.0@ == box_public_key(r.1@),
{
    let kp = dryoc::keypair::StackKeyPair::gen();
    let public_key = *dryoc::types::ByteArray::as_array(&kp.public_key);
    let secret_key = *dryoc::types::ByteArray::as_array(&kp.secret_key);
    (public_key, secret_key)
}

} // verus!
