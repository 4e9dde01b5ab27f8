//! Key exchange primitives: the random shared secret, and encryption under
//! the server's public key with PKCS#1 v1.5 padding.
use vstd::prelude::*;
use rand::rngs::OsRng;
use rand::RngCore;
use rsa::{PaddingScheme, PublicKey, PublicKeyParts, RsaPublicKey};
use rsa::pkcs8::DecodePublicKey;
use crate::error::ProtocolError;

verus! {

#[verifier::external_type_specification]
#[verifier::external_body]
pub struct ExRsaPublicKey(RsaPublicKey);

/// Relies on `RngCore::try_fill_bytes` of rand 0.8's `OsRng`: sixteen bytes
/// from the operating system's generator, or its failure. Nothing is known of
/// the values.
#[verifier::external_body]
pub fn generate_shared_secret() -> (r: Result<Vec<u8>, ProtocolError>)
    ensures
        r matches Ok(v) ==> v@.len() == 16,
        r matches Err(e) ==> e == ProtocolError::CryptoFailure,
{
    let mut secret = [0u8; 16];
    match OsRng.try_fill_bytes(&mut secret) {
        Ok(()) => Ok(secret.to_vec()),
        Err(_) => Err(ProtocolError::CryptoFailure),
    }
}

/// The public key that a DER SubjectPublicKeyInfo decodes to, if any.
pub uninterp spec fn der_public_key(der: Seq<u8>) -> Option<RsaPublicKey>;

/// Relies on `RsaPublicKey::from_public_key_der` of rsa 0.7: the key a DER
/// SubjectPublicKeyInfo holds; anything it refuses is a crypto failure.
#[verifier::external_body]
fn parse_public_key(der: &[u8]) -> (r: Result<RsaPublicKey, ProtocolError>)
    ensures
        match der_public_key(der@) {
            Some(k) => r == Ok::<RsaPublicKey, ProtocolError>(k),
            None => r == Err::<RsaPublicKey, ProtocolError>(ProtocolError::CryptoFailure),
        },
{
    match RsaPublicKey::from_public_key_der(der) {
        Ok(k) => Ok(k),
        Err(_) => Err(ProtocolError::CryptoFailure),
    }
}

/// The modulus size in bytes of a public key.
pub uninterp spec fn rsa_modulus_bytes(key: RsaPublicKey) -> nat;

/// Whether `cipher` is a PKCS#1 v1.5 encryption of `plain` under `key`:
/// decrypting it with the matching private key gives `plain`.
pub uninterp spec fn pkcs1v15_seals(key: RsaPublicKey, plain: Seq<u8>, cipher: Seq<u8>) -> bool;

/// Relies on `PublicKeyParts::size` of rsa 0.7: the modulus size in bytes.
#[verifier::external_body]
fn rsa_key_size(key: &RsaPublicKey) -> (r: usize)
    ensures
        r == rsa_modulus_bytes(*key),
{
    key.size()
}

/// Relies on `PublicKey::encrypt` of rsa 0.7 with PKCS#1 v1.5 padding and
/// `OsRng` for the padding bytes. For a parsed key the only failure is a
/// message longer than the modulus size less 11; the ciphertext, random,
/// is as long as the modulus. Its length check subtracts 11 from the modulus
/// size, so smaller keys are left out.
#[verifier::external_body]
fn rsa_encrypt_pkcs1v15(key: &RsaPublicKey, data: &[u8]) -> (r: Result<Vec<u8>, ProtocolError>)
    requires
        rsa_modulus_bytes(*key) >= 11,
    ensures
        r is Ok <==> data@.len() + 11 <= rsa_modulus_bytes(*key),
        r matches Ok(c) ==> c@.len() == rsa_modulus_bytes(*key) && pkcs1v15_seals(*key, data@, c@),
        r matches Err(e) ==> e == ProtocolError::CryptoFailure,
{
    match key.encrypt(&mut OsRng, PaddingScheme::new_pkcs1v15_encrypt(), data) {
        Ok(c) => Ok(c),
        Err(_) => Err(ProtocolError::CryptoFailure),
    }
}

/// What encrypting `data` under the DER key may give: a crypto failure when
/// the key does not parse, its modulus is under 11 bytes, or `data` is longer
/// than the modulus size less 11; else a ciphertext as long as the modulus
/// that seals `data`.
pub open spec fn rsa_encryption_ok(der: Seq<u8>, data: Seq<u8>, r: Result<Vec<u8>, ProtocolError>) -> bool {
    match der_public_key(der) {
        None => r == Err::<Vec<u8>, ProtocolError>(ProtocolError::CryptoFailure),
        Some(k) => if rsa_modulus_bytes(k) >= 11 && data.len() + 11 <= rsa_modulus_bytes(k) {
            r matches Ok(c) && c@.len() == rsa_modulus_bytes(k) && pkcs1v15_seals(k, data, c@)
        } else {
            r == Err::<Vec<u8>, ProtocolError>(ProtocolError::CryptoFailure)
        },
    }
}

/// Encrypts `data` under the public key given in DER form.
pub fn encrypt_with_server_pubkey(data: &[u8], server_pub_key_der: &[u8]) -> (r: Result<Vec<u8>, ProtocolError>)
    ensures
        rsa_encryption_ok(server_pub_key_der@, data@, r),
{
    let key = parse_public_key(server_pub_key_der)?;
    if rsa_key_size(&key) < 11 {
        return Err(ProtocolError::CryptoFailure);
    }
    rsa_encrypt_pkcs1v15(&key, data)
}

} // verus!
