//! Dilithium3 (ML-DSA-65) keys and signatures of the chain: key pairs from
//! a seed or from the operating system's randomness, signing, verification,
//! and the account address of a public key.
use vstd::prelude::*;
use vstd::string::*;
use crate::hex_text::{hex_digit_char, lower_hex};
use crate::ml_dsa::{
    ml_dsa_65_accepts, ml_dsa_65_key_check, ml_dsa_65_keygen, ml_dsa_65_keypair_from_seed,
    ml_dsa_65_sign, ml_dsa_65_signer, ml_dsa_65_verify, os_random_fill,
};
use crate::text::{decimal_chars, push_char, push_decimal};

verus! {

/// Length of a public key in bytes.
pub const DILITHIUM_PUBLIC_KEY_LEN: usize = 1952;

/// Length of a secret key in bytes.
pub const DILITHIUM_SECRET_KEY_LEN: usize = 4032;

/// Length of a signature in bytes.
pub const DILITHIUM_SIGNATURE_LEN: usize = 3309;

/// A Dilithium3 public key; it is also the account it identifies.
#[derive(Clone, PartialEq, Eq, PartialOrd, Ord, Debug)]
pub struct DilithiumPublicKey(pub [u8; DILITHIUM_PUBLIC_KEY_LEN]);

/// A Dilithium3 signature.
#[derive(Clone, PartialEq, Eq, Debug)]
pub struct DilithiumSignature(pub [u8; DILITHIUM_SIGNATURE_LEN]);

/// A Dilithium3 secret key.
#[derive(Clone, Debug)]
pub struct DilithiumSecretKey(pub [u8; DILITHIUM_SECRET_KEY_LEN]);

/// A public key with its secret key.
#[derive(Clone, Debug)]
pub struct DilithiumKeyPair {
    pub public: DilithiumPublicKey,
    pub secret: DilithiumSecretKey,
}

impl DilithiumKeyPair {
    /// The secret key and the public key belong together: they pass the
    /// ML-DSA-65 key-pair validation.
    pub open spec fn keys_match(&self) -> bool {
        ml_dsa_65_key_check(self.secret.0@, self.public.0@)
    }

    /// The pair is the one key generation derives from `seed`.
    pub open spec fn from_seed(&self, seed: Seq<u8>) -> bool {
        (self.public.0@, self.secret.0@) == ml_dsa_65_keygen(seed)
    }
}

/// Why signing did not produce a signature.
#[derive(Clone, Copy, PartialEq, Eq, Debug)]
pub enum SignError {
    /// The secret and public key do not form a valid key pair.
    InvalidKeyPair,
    /// The signer could not obtain randomness.
    SigningFailed,
}

/// The array holding the bytes of `src`.
fn bytes_to_array<const N: usize>(src: &[u8]) -> (out: [u8; N])
    requires
        src@.len() == N,
    ensures
        out@ == src@,
{
    let mut out: [u8; N] = [0u8; N];
    let mut i: usize = 0;
    while i < N
        invariant
            src@.len() == N,
            out@.len() == N,
            i <= N,
            forall|j: int| 0 <= j < i ==> out@[j] == src@[j],
        decreases N - i,
    {
        out.set(i, src[i]);
        i = i + 1;
    }
    assert(out@ =~= src@);
    out
}

/// The key pair holding the given public and secret key bytes.
fn kp_to_quanta(public: &[u8], secret: &[u8]) -> (pair: DilithiumKeyPair)
    requires
        public@.len() == 1952,
        secret@.len() == 4032,
    ensures
        pair.public.0@ == public@,
        pair.secret.0@ == secret@,
{
    let pk: [u8; 1952] = bytes_to_array(public);
    let sk: [u8; 4032] = bytes_to_array(secret);
    DilithiumKeyPair { public: DilithiumPublicKey(pk), secret: DilithiumSecretKey(sk) }
}

/// The key pair that ML-DSA-65 key generation derives from `seed`; the same
/// seed always gives the same pair.
pub fn generate_keypair_deterministic(seed: &[u8; 32]) -> (pair: DilithiumKeyPair)
    ensures
        pair.from_seed(seed@),
        pair.keys_match(),
{
    let (public, secret) = ml_dsa_65_keypair_from_seed(seed);
    kp_to_quanta(public.as_slice(), secret.as_slice())
}

/// A key pair from a 32-byte seed that the operating system's randomness
/// fills (a failure to fill it is ignored, and the seed is used as it is).
pub fn generate_keypair() -> (pair: DilithiumKeyPair)
    ensures
        exists|seed: Seq<u8>| seed.len() == 32 && #[trigger] pair.from_seed(seed),
        pair.keys_match(),
{
    let mut seed = [0u8; 32];
    let _ = os_random_fill(&mut seed);
    generate_keypair_deterministic(&seed)
}

/// Signs `message` with the key pair (hedged ML-DSA-65, empty context).
/// Refused with `InvalidKeyPair` exactly when the keys do not belong
/// together; a signature that is returned verifies under the public key.
pub fn sign_message(message: &[u8], kp: &DilithiumKeyPair) -> (signature: Result<
    DilithiumSignature,
    SignError,
>)
    ensures
        signature == Err::<DilithiumSignature, SignError>(SignError::InvalidKeyPair)
            <==> !kp.keys_match(),
        signature matches Ok(sig) ==> ml_dsa_65_accepts(kp.public.0@, sig.0@, message@),
{
    let signer = match ml_dsa_65_signer(kp.secret.0.as_slice(), kp.public.0.as_slice()) {
        Ok(signer) => signer,
        Err(_) => return Err(SignError::InvalidKeyPair),
    };
    match ml_dsa_65_sign(&signer, message) {
        Ok(bytes) => Ok(DilithiumSignature(bytes_to_array(bytes.as_slice()))),
        Err(_) => Err(SignError::SigningFailed),
    }
}

/// Whether `signature` is a valid ML-DSA-65 signature of `message` under
/// `public_key`.
pub fn verify_dilithium_signature(
    message: &[u8],
    signature: &[u8; 3309],
    public_key: &[u8; 1952],
) -> (valid: bool)
    ensures
        valid == ml_dsa_65_accepts(public_key@, signature@, message@),
{
    ml_dsa_65_verify(public_key.as_slice(), signature.as_slice(), message)
}

impl DilithiumSignature {
    /// Whether this is a valid signature of `msg` by `signer`.
    pub fn verify(&self, msg: &[u8], signer: &DilithiumPublicKey) -> (valid: bool)
        ensures
            valid == ml_dsa_65_accepts(signer.0@, self.0@, msg@),
    {
        verify_dilithium_signature(msg, &self.0, &signer.0)
    }
}

/// The address of a public key: `QR` and the first 40 lower-case hex digits
/// of the key.
pub open spec fn address_of(public: Seq<u8>) -> Seq<char> {
    seq!['Q', 'R'] + lower_hex(public).take(40)
}

/// The lower-case hex digit for `d`.
fn hex_char(d: u8) -> (c: char)
    requires
        d < 16,
    ensures
        c == hex_digit_char(d as int),
{
    if d < 10 {
        (48 + d) as char
    } else {
        (87 + d) as char
    }
}

/// The account address of `pk`: `QR` and the first 40 hex digits of the key.
pub fn dilithium_to_address(pk: &DilithiumPublicKey) -> (address: String)
    ensures
        address@ == address_of(pk.0@),
        address@.len() == 42,
        address@.take(2) == seq!['Q', 'R'],
{
    let mut address = String::from_str("QR");
    proof {
        reveal_strlit("QR");
    }
    let mut i: usize = 0;
    while i < 20
        invariant
            i <= 20,
            pk.0@.len() == 1952,
            address@ == seq!['Q', 'R'] + lower_hex(pk.0@).take(2 * i),
        decreases 20 - i,
    {
        let b = pk.0[i];
        push_char(&mut address, hex_char(b / 16));
        push_char(&mut address, hex_char(b % 16));
        i = i + 1;
        assert(lower_hex(pk.0@).take(2 * i) =~= lower_hex(pk.0@).take(2 * (i - 1)).push(
            hex_digit_char(b as int / 16),
        ).push(hex_digit_char(b as int % 16)));
    }
    assert(address@.take(2) =~= seq!['Q', 'R']);
    address
}

/// The bytes in decimal, separated by `, `.
pub open spec fn decimal_list(bytes: Seq<u8>) -> Seq<char>
    decreases bytes.len(),
{
    if bytes.len() == 0 {
        Seq::empty()
    } else if bytes.len() == 1 {
        decimal_chars(bytes[0] as nat)
    } else {
        decimal_list(bytes.drop_last()) + seq![',', ' '] + decimal_chars(bytes.last() as nat)
    }
}

/// The bytes as a bracketed decimal list, as Rust debug-prints a byte array.
pub open spec fn bracketed_list(bytes: Seq<u8>) -> Seq<char> {
    seq!['['] + decimal_list(bytes) + seq![']']
}

impl DilithiumPublicKey {
    /// The key bytes as a bracketed list of decimal numbers.
    pub fn to_string(&self) -> (text: String)
        ensures
            text@ == bracketed_list(self.0@),
    {
        let mut text = String::new();
        push_char(&mut text, '[');
        let mut i: usize = 0;
        while i < 1952
            invariant
                i <= 1952,
                self.0@.len() == 1952,
                text@ == seq!['['] + decimal_list(self.0@.take(i as int)),
            decreases 1952 - i,
        {
            if i > 0 {
                push_char(&mut text, ',');
                push_char(&mut text, ' ');
            }
            push_decimal(&mut text, self.0[i]);
            i = i + 1;
            assert(self.0@.take(i as int).drop_last() =~= self.0@.take((i - 1) as int));
        }
        push_char(&mut text, ']');
        assert(self.0@.take(1952) =~= self.0@);
        text
    }

    /// The public key of exactly 1952 bytes, or `None` for any other length.
    pub fn from_bytes(bytes: &[u8]) -> (key: Option<DilithiumPublicKey>)
        ensures
            match key {
                Some(k) => bytes@.len() == 1952 && k.0@ == bytes@,
                None => bytes@.len() != 1952,
            },
    {
        if bytes.len() != 1952 {
            return None;
        }
        Some(DilithiumPublicKey(bytes_to_array(bytes)))
    }

    /// The account that the key identifies: the key itself.
    pub fn into_account(self) -> (account: DilithiumPublicKey)
        ensures
            account == self,
    {
        self
    }
}

impl Default for DilithiumPublicKey {
    fn default() -> (key: Self)
        ensures
            key.0@ == Seq::new(1952, |i: int| 0u8),
    {
        let key = DilithiumPublicKey([0u8; 1952]);
        assert(key.0@ =~= Seq::new(1952, |i: int| 0u8));
        key
    }
}

impl Default for DilithiumSignature {
    fn default() -> (signature: Self)
        ensures
            signature.0@ == Seq::new(3309, |i: int| 0u8),
    {
        let signature = DilithiumSignature([0u8; 3309]);
        assert(signature.0@ =~= Seq::new(3309, |i: int| 0u8));
        signature
    }
}

impl Default for DilithiumSecretKey {
    fn default() -> (key: Self)
        ensures
            key.0@ == Seq::new(4032, |i: int| 0u8),
    {
        let key = DilithiumSecretKey([0u8; 4032]);
        assert(key.0@ =~= Seq::new(4032, |i: int| 0u8));
        key
    }
}

/// Key generation is deterministic: pairs generated from the same seed are
/// equal.
pub proof fn lemma_same_seed_same_pair(a: DilithiumKeyPair, b: DilithiumKeyPair, seed: Seq<u8>)
    requires
        a.from_seed(seed),
        b.from_seed(seed),
    ensures
        a.public.0@ == b.public.0@,
        a.secret.0@ == b.secret.0@,
{
}

} // verus!
