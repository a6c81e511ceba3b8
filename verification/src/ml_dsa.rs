//! ML-DSA-65 (FIPS 204) as the `dilithium-rs` crate computes it, and the
//! operating system's randomness as `getrandom` supplies it. Every item
//! here is trusted: its contract restates what the outside source shows.
use vstd::prelude::*;

verus! {

#[verifier::external_type_specification]
#[verifier::external_body]
pub struct ExMlDsaKeyPair(dilithium::MlDsaKeyPair);

#[verifier::external_type_specification]
#[verifier::external_body]
pub struct ExDilithiumError(dilithium::DilithiumError);


/// The (public key, secret key) that ML-DSA-65 key generation derives from
/// a 32-byte seed.
pub uninterp spec fn ml_dsa_65_keygen(seed: Seq<u8>) -> (Seq<u8>, Seq<u8>);

/// Whether a secret key and a public key pass the ML-DSA-65 key-pair
/// validation of FIPS 204 §7.1 (sizes, `rho`, `tr = H(pk)`, `t = A·s1 + s2`).
pub uninterp spec fn ml_dsa_65_key_check(secret: Seq<u8>, public: Seq<u8>) -> bool;

/// Whether ML-DSA-65 verification, with an empty context, accepts
/// `signature` on `message` under `public`.
pub uninterp spec fn ml_dsa_65_accepts(public: Seq<u8>, signature: Seq<u8>, message: Seq<u8>) -> bool;

/// `dilithium::MlDsaKeyPair::generate_deterministic` with `ML_DSA_65`,
/// read out through `public_key` and `private_key`.
/// Claimed: the pair depends on the seed alone; the keys are 1952 and 4032
/// bytes long (`sign::keypair` allocates them at the mode's sizes); and the
/// pair passes `from_keys` validation (that validation recomputes exactly
/// what key generation computed; the crate's `test_key_validation_valid`
/// checks it).
#[verifier::external_body]
pub(crate) fn ml_dsa_65_keypair_from_seed(seed: &[u8; 32]) -> (keys: (Vec<u8>, Vec<u8>))
    ensures
        (keys.0@, keys.1@) == ml_dsa_65_keygen(seed@),
        keys.0@.len() == 1952,
        keys.1@.len() == 4032,
        ml_dsa_65_key_check(keys.1@, keys.0@),
{
    let pair = dilithium::MlDsaKeyPair::generate_deterministic(dilithium::ML_DSA_65, seed);
    (pair.public_key().to_vec(), pair.private_key().to_vec())
}

/// A validated ML-DSA-65 key pair of the `dilithium-rs` crate, kept with
/// the public key it was built from. Only `ml_dsa_65_signer` builds one.
pub struct MlDsaSigner {
    pair: dilithium::MlDsaKeyPair,
    public: Vec<u8>,
}

impl MlDsaSigner {
    /// The public key of the pair.
    pub closed spec fn public_key(&self) -> Seq<u8> {
        self.public@
    }
}

/// `dilithium::MlDsaKeyPair::from_keys` with `ML_DSA_65`.
/// Claimed: it succeeds exactly when the keys pass validation, a function of
/// the two keys alone; the signer keeps the public key it was given.
#[verifier::external_body]
pub(crate) fn ml_dsa_65_signer(secret: &[u8], public: &[u8]) -> (signer: Result<
    MlDsaSigner,
    dilithium::DilithiumError,
>)
    ensures
        signer is Ok <==> ml_dsa_65_key_check(secret@, public@),
        signer matches Ok(s) ==> s.public_key() == public@,
{
    match dilithium::MlDsaKeyPair::from_keys(secret, public, dilithium::ML_DSA_65) {
        Ok(pair) => Ok(MlDsaSigner { pair, public: public.to_vec() }),
        Err(e) => Err(e),
    }
}

/// `dilithium::MlDsaKeyPair::sign` with an empty context: hedged
/// signing with fresh randomness from `getrandom`, read out through
/// `as_bytes`.
/// Claimed of a signature it returns: it is 3309 bytes long (the buffer is
/// allocated at the mode's signature size) and verification accepts it under
/// the pair's public key (ML-DSA is correct: the crate's documentation and
/// its round-trip tests verify what `sign` produced).
/// Not claimed: which signature comes out (it depends on the randomness),
/// nor that signing succeeds (it fails when the randomness cannot be had).
#[verifier::external_body]
pub(crate) fn ml_dsa_65_sign(signer: &MlDsaSigner, message: &[u8]) -> (signature: Result<
    Vec<u8>,
    dilithium::DilithiumError,
>)
    ensures
        signature matches Ok(sig) ==> sig@.len() == 3309 && ml_dsa_65_accepts(
            signer.public_key(),
            sig@,
            message@,
        ),
{
    match signer.pair.sign(message, &[]) {
        Ok(sig) => Ok(sig.as_bytes().to_vec()),
        Err(e) => Err(e),
    }
}

/// `dilithium::MlDsaKeyPair::verify` with an empty context and
/// `ML_DSA_65`, on a signature made by `DilithiumSignature::from_slice`.
/// Claimed: the answer is a function of the three byte strings alone.
#[verifier::external_body]
pub(crate) fn ml_dsa_65_verify(public: &[u8], signature: &[u8], message: &[u8]) -> (valid: bool)
    ensures
        valid == ml_dsa_65_accepts(public@, signature@, message@),
{
    let sig = dilithium::MlDsaSignature::from_slice(signature);
    dilithium::MlDsaKeyPair::verify(public, &sig, message, &[], dilithium::ML_DSA_65)
}

/// `getrandom::getrandom`: fills `seed` from the operating system's source
/// of randomness, and tells whether it succeeded. Nothing is claimed of what
/// `seed` holds afterwards, nor whether the call succeeds.
#[verifier::external_body]
pub(crate) fn os_random_fill(seed: &mut [u8; 32]) -> (filled: bool) {
    getrandom::getrandom(seed).is_ok()
}

} // verus!
