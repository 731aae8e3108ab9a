use vstd::prelude::*;

use crate::error::CircleError;
use crate::hexcode::{hex_bytes, hex_decode, hex_decode_err_spec, hex_well_formed};

verus! {

#[verifier::external_type_specification]
#[verifier::external_body]
pub struct ExRsaPublicKey(rsa::RsaPublicKey);

#[verifier::external_type_specification]
#[verifier::external_body]
pub struct ExRsaError(rsa::errors::Error);

#[verifier::external_type_specification]
#[verifier::external_body]
pub struct ExSpkiError(rsa::pkcs8::spki::Error);

/// Whether `RsaPublicKey::from_public_key_pem` accepts these bytes as the
/// UTF-8 PEM text of a public key. Which byte strings it accepts takes pages
/// to state, but it is a function of the bytes alone, so the outcome gets a
/// name; bytes that are not UTF-8 count as refused.
pub uninterp spec fn pem_key_ok(pem: Seq<u8>) -> bool;

/// Relies on rsa's `DecodePublicKey::from_public_key_pem` for `RsaPublicKey`:
/// parses a PEM-encoded SPKI public key. Acceptance is deterministic in the
/// input bytes, which `pem_key_ok` names; input that is not UTF-8 is
/// reported as malformed key data.
#[verifier::external_body]
pub(crate) fn rsa_public_key_from_pem(pem: &[u8]) -> (r: Result<
    rsa::RsaPublicKey,
    rsa::pkcs8::spki::Error,
>)
    ensures
        r is Ok <==> pem_key_ok(pem@),
{
    match core::str::from_utf8(pem) {
        Ok(s) => <rsa::RsaPublicKey as rsa::pkcs8::DecodePublicKey>::from_public_key_pem(s),
        Err(_) => Err(rsa::pkcs8::spki::Error::KeyMalformed),
    }
}

/// Relies on `RsaPublicKey::encrypt` with OAEP padding over SHA-256 and a
/// fresh thread-local CSPRNG: on success the ciphertext is one block of the
/// key's modulus size, which exceeds the plaintext length by at least the
/// OAEP overhead of 66 bytes. The padding is randomized, so no more is
/// stated of the bytes themselves.
#[verifier::external_body]
pub(crate) fn rsa_oaep_sha256_encrypt(key: &rsa::RsaPublicKey, msg: &[u8]) -> (r: Result<
    Vec<u8>,
    rsa::errors::Error,
>)
    ensures
        r matches Ok(c) ==> c@.len() >= msg@.len() + 66,
{
    let padding = rsa::Oaep::new::<rsa::sha2::Sha256>();
    key.encrypt(&mut rand::thread_rng(), padding, msg)
}

/// What `base64::encode` returns on a given byte string.
pub uninterp spec fn base64_of(b: Seq<u8>) -> Seq<u8>;

/// Relies on `base64::encode`: standard alphabet with `=` padding, four
/// output characters for every started group of three input bytes.
#[verifier::external_body]
pub(crate) fn base64_encode(b: &[u8]) -> (r: Vec<u8>)
    ensures
        r@ == base64_of(b@),
        r@.len() == 4 * ((b@.len() + 2) / 3),
{
    base64::encode(b).into_bytes()
}

/// Encrypt a hex-encoded entity secret for transmission.
///
/// The secret is hex-decoded (malformed hex fails here, before any
/// cryptographic step), encrypted under `public_key` with randomized OAEP
/// padding, and the ciphertext is base64-encoded. The ciphertext block is
/// strictly longer than the decoded secret, so it never equals the
/// plaintext, and the returned encoding is never empty.
pub fn encrypt_entity_secret(public_key: &rsa::RsaPublicKey, entity_secret: &[u8]) -> (r: Result<
    Vec<u8>,
    CircleError,
>)
    ensures
        r is Ok ==> hex_well_formed(entity_secret@),
        !hex_well_formed(entity_secret@) ==> r is Err,
        r matches Err(e) ==> (match e {
            CircleError::FromHexError(h) => !hex_well_formed(entity_secret@)
                && hex_decode_err_spec(entity_secret@, h),
            CircleError::RsaError => hex_well_formed(entity_secret@),
            _ => false,
        }),
        r matches Ok(c) ==> exists|cipher: Seq<u8>|
            {
                &&& #[trigger] base64_of(cipher) == c@
                &&& cipher.len() >= hex_bytes(entity_secret@).len() + 66
                &&& cipher != hex_bytes(entity_secret@)
                &&& c@.len() == 4 * ((cipher.len() + 2) / 3)
            },
        r matches Ok(c) ==> c@.len() >= 88,
{
    let raw = match hex_decode(entity_secret) {
        Ok(v) => v,
        Err(e) => {
            return Err(CircleError::FromHexError(e));
        },
    };
    let cipher = match rsa_oaep_sha256_encrypt(public_key, raw.as_slice()) {
        Ok(c) => c,
        Err(_) => {
            return Err(CircleError::RsaError);
        },
    };
    let encoded = base64_encode(cipher.as_slice());
    proof {
        assert(cipher@.len() >= hex_bytes(entity_secret@).len() + 66);
        assert(cipher@ != hex_bytes(entity_secret@));
        assert(base64_of(cipher@) == encoded@);
    }
    Ok(encoded)
}

} // verus!
