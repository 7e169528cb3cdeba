//! Ed25519 keys and signatures, through `ed25519-dalek`, and the signature check
//! of signed transactions.
use vstd::prelude::*;
use vstd::string::StringSliceAdditionalSpecFns;
use crate::encode::{transaction_signing_payload, tx_bytes};
use crate::error::CryptoError;
use crate::hash::{Address, blake3_digest};
use crate::hexcodec::{hex_bytes, hex_decode, hex_encode, hex_text};
use crate::tx::SignedTransaction;

verus! {

/// The Ed25519 public key of a 32-byte secret key.
pub uninterp spec fn ed25519_public_key(secret: Seq<u8>) -> Seq<u8>;

/// The Ed25519 signature of a message under a 32-byte secret key.
pub uninterp spec fn ed25519_signature(secret: Seq<u8>, message: Seq<u8>) -> Seq<u8>;

/// Whether a public key (which must decode to a curve point) accepts a
/// signature on a message.
pub uninterp spec fn ed25519_accepts(public_key: Seq<u8>, signature: Seq<u8>, message: Seq<u8>) -> bool;

/// An Ed25519 signing key of `ed25519-dalek`.
#[verifier::external_type_specification]
#[verifier::external_body]
pub struct ExSigningKey(ed25519_dalek::SigningKey);

/// An Ed25519 verifying key of `ed25519-dalek`.
#[verifier::external_type_specification]
#[verifier::external_body]
pub struct ExVerifyingKey(ed25519_dalek::VerifyingKey);

/// Whether 32 bytes encode an Ed25519 public key, that is a point of the curve.
pub uninterp spec fn ed25519_point(bytes: Seq<u8>) -> bool;

/// `VerifyingKey::from_bytes`: the verifying key the bytes encode, `None` where
/// they are not a curve point.
#[verifier::external_body]
fn verifying_key_from(bytes: &[u8; 32]) -> (k: Option<ed25519_dalek::VerifyingKey>)
    ensures
        k is Some <==> ed25519_point(bytes@),
{
    ed25519_dalek::VerifyingKey::from_bytes(bytes).ok()
}

/// A secret key and its public key.
#[derive(Clone, Debug, PartialEq, Eq)]
pub struct KeyMaterial {
    pub secret_key: [u8; 32],
    pub public_key: [u8; 32],
}

/// `SigningKey::from_bytes(..).verifying_key().to_bytes()`: the public key of a
/// secret key.
#[verifier::external_body]
fn public_key_of(secret: &[u8; 32]) -> (public: [u8; 32])
    ensures
        public@ == ed25519_public_key(secret@),
{
    ed25519_dalek::SigningKey::from_bytes(secret).verifying_key().to_bytes()
}

impl KeyMaterial {
    /// `SigningKey::generate` with the operating system's random source: a fresh
    /// secret key and its public key. Which secret comes out is chance.
    #[verifier::external_body]
    pub fn generate() -> (k: Self)
        ensures
            k.public_key@ == ed25519_public_key(k.secret_key@),
    {
        let signing = ed25519_dalek::SigningKey::generate(&mut rand_core::OsRng);
        let verifying = signing.verifying_key();
        KeyMaterial { secret_key: signing.to_bytes(), public_key: verifying.to_bytes() }
    }

    /// Key material from the hex text of a 32-byte secret key.
    pub fn from_secret_hex(value: &str) -> (r: Result<Self, CryptoError>)
        ensures
            match hex_bytes(value.spec_bytes()) {
                None => r matches Err(CryptoError::HexDecode),
                Some(b) => if b.len() != 32 {
                    r matches Err(CryptoError::InvalidSecretKeyLength { received }) && received
                        == b.len()
                } else {
                    r matches Ok(k) && k.secret_key@ == b && k.public_key@ == ed25519_public_key(b)
                },
            },
    {
        let bytes = match hex_decode(value.as_bytes()) {
            Some(b) => b,
            None => {
                return Err(CryptoError::HexDecode);
            },
        };
        if bytes.len() != 32 {
            return Err(CryptoError::InvalidSecretKeyLength { received: bytes.len() });
        }
        let mut secret_key = [0u8; 32];
        let mut i: usize = 0;
        while i < 32
            invariant
                i <= 32,
                bytes@.len() == 32,
                secret_key@.len() == 32,
                forall|j: int| 0 <= j < i ==> secret_key@[j] == bytes@[j],
            decreases 32 - i,
        {
            secret_key[i] = bytes[i];
            i += 1;
        }
        assert(secret_key@ =~= bytes@);
        let public_key = public_key_of(&secret_key);
        Ok(KeyMaterial { secret_key, public_key })
    }

    /// The hex text of the secret key.
    pub fn secret_hex(&self) -> (s: String)
        ensures
            s@ == hex_text(self.secret_key@),
    {
        hex_encode(self.secret_key.as_slice())
    }

    /// `SigningKey::from_bytes` of the secret key: the key that signs for this
    /// key material. Nothing is stated of the value, which the library only
    /// hands on.
    #[verifier::external_body]
    pub fn signing_key(&self) -> ed25519_dalek::SigningKey {
        ed25519_dalek::SigningKey::from_bytes(&self.secret_key)
    }

    /// The verifying key of the public key, refused where the public key is not
    /// a curve point.
    pub fn verifying_key(&self) -> (r: Result<ed25519_dalek::VerifyingKey, CryptoError>)
        ensures
            r is Ok <==> ed25519_point(self.public_key@),
            r is Err ==> r matches Err(CryptoError::InvalidKeyMaterial),
    {
        match verifying_key_from(&self.public_key) {
            Some(k) => Ok(k),
            None => Err(CryptoError::InvalidKeyMaterial),
        }
    }

    /// The hex text of the public key.
    pub fn public_hex(&self) -> (s: String)
        ensures
            s@ == hex_text(self.public_key@),
    {
        hex_encode(self.public_key.as_slice())
    }
}

/// The address of a public key.
pub fn address_from_public_key(public_key: &[u8; 32]) -> (a: Address)
    ensures
        a@ == blake3_digest(public_key@),
{
    Address::from_public_key(public_key)
}

/// An address from its text; any malformed text is invalid key material.
pub fn parse_address(value: &str) -> (r: Result<Address, CryptoError>)
    ensures
        ({
            let raw = crate::hash::address_hex_part(value.spec_bytes());
            match hex_bytes(raw) {
                Some(b) => if b.len() == 32 {
                    r matches Ok(a) && a@ == b
                } else {
                    r matches Err(CryptoError::InvalidKeyMaterial)
                },
                None => r matches Err(CryptoError::InvalidKeyMaterial),
            }
        }),
{
    match Address::from_str(value) {
        Ok(a) => Ok(a),
        Err(_) => Err(CryptoError::InvalidKeyMaterial),
    }
}

/// `SigningKey::from_bytes(secret).sign(payload)`: the Ed25519 signature of the
/// payload under the key's secret. Ed25519 signing is deterministic, and the
/// key's public key accepts the signature it makes.
#[verifier::external_body]
pub fn sign(key: &KeyMaterial, payload: &[u8]) -> (signature: [u8; 64])
    ensures
        signature@ == ed25519_signature(key.secret_key@, payload@),
        ed25519_accepts(ed25519_public_key(key.secret_key@), signature@, payload@),
{
    let signing = ed25519_dalek::SigningKey::from_bytes(&key.secret_key);
    ed25519_dalek::Signer::sign(&signing, payload).to_bytes()
}

/// `VerifyingKey::from_bytes` then `verify`: whether the public key accepts the
/// signature on the payload (false where the key bytes are not a curve point).
#[verifier::external_body]
pub fn verify_with_public_key(public_key: &[u8; 32], signature: &[u8; 64], payload: &[u8]) -> (ok: bool)
    ensures
        ok == ed25519_accepts(public_key@, signature@, payload@),
{
    let Ok(verifying) = ed25519_dalek::VerifyingKey::from_bytes(public_key) else {
        return false;
    };
    let sig = ed25519_dalek::Signature::from_bytes(signature);
    ed25519_dalek::Verifier::verify(&verifying, payload, &sig).is_ok()
}

/// Checks a signed transaction: its public key must hash to the sender's
/// address, and the key must accept the signature on the payload that
/// `payload_encoder` gives for it.
pub fn verify_signed_transaction<F: Fn(&SignedTransaction) -> Vec<u8>>(
    signed: &SignedTransaction,
    payload_encoder: F,
) -> (ok: bool)
    requires
        payload_encoder.requires((signed,)),
    ensures
        blake3_digest(signed.public_key@) != signed.tx.from@ ==> !ok,
        blake3_digest(signed.public_key@) == signed.tx.from@ ==> exists|payload: Vec<u8>|
            #[trigger] call_ensures(payload_encoder, (signed,), payload) && ok == ed25519_accepts(
                signed.public_key@,
                signed.signature@,
                payload@,
            ),
{
    if Address::from_public_key(&signed.public_key) != signed.tx.from {
        return false;
    }
    let payload = payload_encoder(signed);
    verify_with_public_key(&signed.public_key, &signed.signature, payload.as_slice())
}

/// The signature check the node applies to transactions: the key hashes to the
/// sender and accepts the signature on the transaction's wire bytes.
pub open spec fn transaction_signature_valid(s: crate::tx::SignedTransactionView) -> bool {
    blake3_digest(s.public_key) == s.tx.from && ed25519_accepts(s.public_key, s.signature, tx_bytes(s.tx))
}

/// Checks a signed transaction's signature over its transaction's wire bytes.
pub fn transaction_signature_ok(signed: &SignedTransaction) -> (ok: bool)
    ensures
        ok == transaction_signature_valid(signed@),
{
    let encoder = |inner: &SignedTransaction| -> (p: Vec<u8>)
        ensures
            p@ == tx_bytes(inner.tx@),
        { transaction_signing_payload(&inner.tx) };
    verify_signed_transaction(signed, encoder)
}

/// A signature from a slice, which must hold exactly 64 bytes.
pub fn signature_from_slice(value: &[u8]) -> (r: Result<[u8; 64], CryptoError>)
    ensures
        value@.len() == 64 ==> (r matches Ok(s) && s@ == value@),
        value@.len() != 64 ==> (r matches Err(CryptoError::InvalidSignatureLength { received })
            && received == value@.len()),
{
    if value.len() != 64 {
        return Err(CryptoError::InvalidSignatureLength { received: value.len() });
    }
    let mut out = [0u8; 64];
    let mut i: usize = 0;
    while i < 64
        invariant
            i <= 64,
            value@.len() == 64,
            out@.len() == 64,
            forall|j: int| 0 <= j < i ==> out@[j] == value@[j],
        decreases 64 - i,
    {
        out[i] = value[i];
        i += 1;
    }
    assert(out@ =~= value@);
    Ok(out)
}

} // verus!
