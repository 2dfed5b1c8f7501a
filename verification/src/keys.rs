//! Signing keys and signatures, as bytes and as base64 text.
use base64::engine::general_purpose::STANDARD;
use base64::Engine;
use ed25519_dalek::Signer;
use ed25519_dalek::Verifier;
use vstd::prelude::*;

verus! {

/// Why base64 text cannot be decoded.
#[derive(Debug, Clone, Copy, PartialEq, Eq)]
pub enum Base64Fault {
    /// A byte outside the alphabet, and where it stands.
    InvalidByte(usize, u8),
    InvalidLength(usize),
    /// A last symbol with bits that encode nothing, and where it stands.
    InvalidLastSymbol(usize, u8),
    InvalidPadding,
}

/// The text that `base64` makes of bytes with its standard alphabet and padding.
pub uninterp spec fn base64_text(data: Seq<u8>) -> Seq<char>;

/// What `base64` decodes text to with its standard alphabet and padding.
pub uninterp spec fn base64_bytes(text: Seq<char>) -> Result<Seq<u8>, Base64Fault>;

/// The public key that `ed25519_dalek` derives from a seed.
pub uninterp spec fn public_key(seed: Seq<u8>) -> Seq<u8>;

/// Whether `ed25519_dalek` takes 32 bytes for a public key.
pub uninterp spec fn is_public_key(bytes: Seq<u8>) -> bool;

/// The signature that `ed25519_dalek` makes of a text with the key of a seed.
pub uninterp spec fn signature(seed: Seq<u8>, text: Seq<char>) -> Seq<u8>;

/// Whether `ed25519_dalek` accepts a signature of a text under a public key.
pub uninterp spec fn signature_accepted(key: Seq<u8>, text: Seq<char>, sig: Seq<u8>) -> bool;

/// `base64::Engine::encode` with `STANDARD`: the text depends on the bytes alone, and decoding it
/// with the same engine gives them back. The bound keeps the length of the text in range, beyond
/// which the call panics.
#[verifier::external_body]
fn encode_base64(data: &[u8]) -> (text: String)
    requires
        data@.len() <= 1024,
    ensures
        text@ == base64_text(data@),
        base64_bytes(text@) is Ok && base64_bytes(text@)->Ok_0 == data@,
{
    STANDARD.encode(data)
}

/// `base64::Engine::decode` with `STANDARD`: the bytes, or the fault, depend on the text alone.
#[verifier::external_body]
fn decode_base64(text: &str) -> (r: Result<Vec<u8>, Base64Fault>)
    ensures
        match base64_bytes(text@) {
            Ok(b) => r is Ok && r->Ok_0@ == b,
            Err(e) => r == Err::<Vec<u8>, Base64Fault>(e),
        },
{
    STANDARD.decode(text.as_bytes()).map_err(|e| match e {
        base64::DecodeError::InvalidByte(at, b) => Base64Fault::InvalidByte(at, b),
        base64::DecodeError::InvalidLength(n) => Base64Fault::InvalidLength(n),
        base64::DecodeError::InvalidLastSymbol(at, b) => Base64Fault::InvalidLastSymbol(at, b),
        base64::DecodeError::InvalidPadding => Base64Fault::InvalidPadding,
    })
}

/// `ed25519_dalek::SigningKey::verifying_key`: the public key depends on the seed alone, and
/// `VerifyingKey::from_bytes` takes it.
#[verifier::external_body]
fn derive_public_key(seed: &[u8; 32]) -> (key: [u8; 32])
    ensures
        key@ == public_key(seed@),
        is_public_key(key@),
{
    ed25519_dalek::SigningKey::from_bytes(seed).verifying_key().to_bytes()
}

/// `ed25519_dalek::VerifyingKey::from_bytes`: whether the bytes are a public key depends on them
/// alone.
#[verifier::external_body]
fn check_public_key(bytes: &[u8; 32]) -> (r: bool)
    ensures
        r == is_public_key(bytes@),
{
    ed25519_dalek::VerifyingKey::from_bytes(bytes).is_ok()
}

/// `ed25519_dalek::Signer::sign`: the signature depends on the seed and the text alone, and the
/// public key of the seed accepts it for that text.
#[verifier::external_body]
fn make_signature(seed: &[u8; 32], text: &str) -> (sig: [u8; 64])
    ensures
        sig@ == signature(seed@, text@),
        signature_accepted(public_key(seed@), text@, sig@),
{
    ed25519_dalek::SigningKey::from_bytes(seed).sign(text.as_bytes()).to_bytes()
}

/// `ed25519_dalek::Verifier::verify`: whether a signature is accepted depends on the key, the text
/// and the signature alone. Bytes that are no key accept nothing.
#[verifier::external_body]
fn accept_signature(key: &[u8; 32], text: &str, sig: &[u8; 64]) -> (r: bool)
    ensures
        r == signature_accepted(key@, text@, sig@),
{
    match ed25519_dalek::VerifyingKey::from_bytes(key) {
        Ok(k) => k.verify(text.as_bytes(), &ed25519_dalek::Signature::from_bytes(sig)).is_ok(),
        Err(_) => false,
    }
}

/// A key that signs, by its seed.
#[derive(Clone, Copy)]
pub struct SigningKey {
    pub seed: [u8; 32],
}

/// A key that verifies.
#[derive(Debug, Clone, Copy, PartialEq, Eq)]
pub struct VerifyingKey {
    pub bytes: [u8; 32],
}

impl SigningKey {
    pub fn from_bytes(seed: &[u8; 32]) -> (k: Self)
        ensures
            k.seed@ == seed@,
    {
        SigningKey { seed: *seed }
    }

    /// The key that verifies what this one signs.
    pub fn verifying_key(&self) -> (k: VerifyingKey)
        ensures
            k.bytes@ == public_key(self.seed@),
            is_public_key(k.bytes@),
    {
        VerifyingKey { bytes: derive_public_key(&self.seed) }
    }
}

impl VerifyingKey {
    pub fn to_bytes(&self) -> (b: [u8; 32])
        ensures
            b@ == self.bytes@,
    {
        self.bytes
    }
}

/// Why a key or an envelope is refused.
#[derive(Debug, Clone, Copy, PartialEq, Eq)]
pub enum LicensingProtoError {
    Base64(Base64Fault),
    InvalidSignatureBytes,
    InvalidSignature,
    InvalidKeyLength(usize),
    InvalidPublicKey,
}

/// The first 32 bytes.
fn first_32(v: &Vec<u8>) -> (a: [u8; 32])
    requires
        v@.len() == 32,
    ensures
        a@ == v@,
{
    let a: [u8; 32] = [
        v[0], v[1], v[2], v[3], v[4], v[5], v[6], v[7],
        v[8], v[9], v[10], v[11], v[12], v[13], v[14], v[15],
        v[16], v[17], v[18], v[19], v[20], v[21], v[22], v[23],
        v[24], v[25], v[26], v[27], v[28], v[29], v[30], v[31],
    ];
    assert(a@ =~= v@);
    a
}

/// The 64 bytes of a signature.
fn all_64(v: &Vec<u8>) -> (a: [u8; 64])
    requires
        v@.len() == 64,
    ensures
        a@ == v@,
{
    let mut a: [u8; 64] = [0; 64];
    let mut i: usize = 0;
    while i < 64
        invariant
            i <= 64,
            v@.len() == 64,
            forall|k: int| 0 <= k < i ==> #[trigger] a@[k] == v@[k],
        decreases 64 - i,
    {
        a[i] = v[i];
        i += 1;
    }
    assert(a@ =~= v@);
    a
}

/// What decoded key text says: its 32 bytes, or why it is no key.
pub open spec fn key_bytes(decoded: Result<Seq<u8>, Base64Fault>) -> Result<
    Seq<u8>,
    LicensingProtoError,
> {
    match decoded {
        Err(e) => Err(LicensingProtoError::Base64(e)),
        Ok(b) => if b.len() != 32 {
            Err(LicensingProtoError::InvalidKeyLength(b.len() as usize))
        } else {
            Ok(b)
        },
    }
}

/// Takes decoded key text for 32 bytes.
pub fn key_from_decoded(decoded: Result<Vec<u8>, Base64Fault>) -> (r: Result<
    [u8; 32],
    LicensingProtoError,
>)
    ensures
        match decoded {
            Err(e) => r == Err::<[u8; 32], LicensingProtoError>(LicensingProtoError::Base64(e)),
            Ok(b) => if b@.len() != 32 {
                r == Err::<[u8; 32], LicensingProtoError>(
                    LicensingProtoError::InvalidKeyLength(b@.len() as usize),
                )
            } else {
                r is Ok && r->Ok_0@ == b@
            },
        },
{
    match decoded {
        Err(e) => Err(LicensingProtoError::Base64(e)),
        Ok(b) => if b.len() != 32 {
            Err(LicensingProtoError::InvalidKeyLength(b.len()))
        } else {
            Ok(first_32(&b))
        },
    }
}

/// The signing key of a base64 seed.
pub fn decode_signing_key(seed_b64: &str) -> (r: Result<SigningKey, LicensingProtoError>)
    ensures
        match key_bytes(base64_bytes(seed_b64@)) {
            Ok(b) => r is Ok && r->Ok_0.seed@ == b,
            Err(e) => r == Err::<SigningKey, LicensingProtoError>(e),
        },
{
    let seed: [u8; 32] = key_from_decoded(decode_base64(seed_b64))?;
    Ok(SigningKey { seed })
}

/// A public key as base64 text; decoding the text gives the key back.
pub fn encode_verifying_key(verifying_key: &VerifyingKey) -> (s: String)
    ensures
        s@ == base64_text(verifying_key.bytes@),
        key_bytes(base64_bytes(s@)) == Ok::<Seq<u8>, LicensingProtoError>(verifying_key.bytes@),
{
    encode_base64(verifying_key.bytes.as_slice())
}

/// The public key that base64 text spells.
pub fn decode_verifying_key(key_b64: &str) -> (r: Result<VerifyingKey, LicensingProtoError>)
    ensures
        match key_bytes(base64_bytes(key_b64@)) {
            Ok(b) => if is_public_key(b) {
                r is Ok && r->Ok_0.bytes@ == b
            } else {
                r == Err::<VerifyingKey, LicensingProtoError>(LicensingProtoError::InvalidPublicKey)
            },
            Err(e) => r == Err::<VerifyingKey, LicensingProtoError>(e),
        },
{
    let bytes: [u8; 32] = key_from_decoded(decode_base64(key_b64))?;
    if check_public_key(&bytes) {
        Ok(VerifyingKey { bytes })
    } else {
        Err(LicensingProtoError::InvalidPublicKey)
    }
}

/// Claims as JSON text, and the signature of that text.
#[derive(Debug, Clone, PartialEq, Eq)]
pub struct SignedEntitlementEnvelope {
    pub claims_json: String,
    pub signature_b64: String,
}

/// What decoded signature text says: the 64 bytes of a signature, or why it is none.
pub open spec fn signature_bytes(decoded: Result<Seq<u8>, Base64Fault>) -> Result<
    Seq<u8>,
    LicensingProtoError,
> {
    match decoded {
        Err(e) => Err(LicensingProtoError::Base64(e)),
        Ok(b) => if b.len() != 64 {
            Err(LicensingProtoError::InvalidSignatureBytes)
        } else {
            Ok(b)
        },
    }
}

/// What an envelope comes to, given its decoded signature and whether it was accepted.
pub open spec fn envelope_result(
    decoded: Result<Seq<u8>, Base64Fault>,
    accepted: bool,
) -> Result<(), LicensingProtoError> {
    match signature_bytes(decoded) {
        Err(e) => Err(e),
        Ok(b) => if accepted {
            Ok(())
        } else {
            Err(LicensingProtoError::InvalidSignature)
        },
    }
}

/// Takes decoded signature text for the 64 bytes of a signature.
pub fn signature_from_decoded(decoded: Result<Vec<u8>, Base64Fault>) -> (r: Result<
    [u8; 64],
    LicensingProtoError,
>)
    ensures
        match decoded {
            Err(e) => r == Err::<[u8; 64], LicensingProtoError>(LicensingProtoError::Base64(e)),
            Ok(b) => if b@.len() != 64 {
                r == Err::<[u8; 64], LicensingProtoError>(
                    LicensingProtoError::InvalidSignatureBytes,
                )
            } else {
                r is Ok && r->Ok_0@ == b@
            },
        },
{
    match decoded {
        Err(e) => Err(LicensingProtoError::Base64(e)),
        Ok(b) => if b.len() != 64 {
            Err(LicensingProtoError::InvalidSignatureBytes)
        } else {
            Ok(all_64(&b))
        },
    }
}

impl SignedEntitlementEnvelope {
    /// Signs claims that are written out as JSON.
    pub fn sign(claims_json: String, signing_key: &SigningKey) -> (e: Self)
        ensures
            e.claims_json@ == claims_json@,
            e.signature_b64@ == base64_text(signature(signing_key.seed@, claims_json@)),
            e.verified_by(public_key(signing_key.seed@)) == Ok::<(), LicensingProtoError>(()),
    {
        let sig: [u8; 64] = make_signature(&signing_key.seed, claims_json.as_str());
        let signature_b64: String = encode_base64(sig.as_slice());
        SignedEntitlementEnvelope { claims_json, signature_b64 }
    }

    /// What verifying the envelope with a public key comes to.
    pub open spec fn verified_by(self, key: Seq<u8>) -> Result<(), LicensingProtoError> {
        let decoded = base64_bytes(self.signature_b64@);
        envelope_result(
            decoded,
            signature_accepted(key, self.claims_json@, signature_bytes(decoded)->Ok_0),
        )
    }

    /// The JSON text of the claims, if the signature holds.
    pub fn verify(&self, verifying_key: &VerifyingKey) -> (r: Result<String, LicensingProtoError>)
        ensures
            match self.verified_by(verifying_key.bytes@) {
                Ok(_) => r is Ok && r->Ok_0@ == self.claims_json@,
                Err(e) => r == Err::<String, LicensingProtoError>(e),
            },
    {
        let sig: [u8; 64] = signature_from_decoded(decode_base64(self.signature_b64.as_str()))?;
        if !accept_signature(&verifying_key.bytes, self.claims_json.as_str(), &sig) {
            return Err(LicensingProtoError::InvalidSignature);
        }
        Ok(self.claims_json.clone())
    }
}

/// Text is a key only if it decodes to 32 bytes, and a signature only if it decodes to 64; an
/// envelope holds only with such a signature that its key accepts, and each fault is told as what
/// it is.
pub proof fn only_accepted_signatures_hold(decoded: Result<Seq<u8>, Base64Fault>, accepted: bool)
    ensures
        key_bytes(decoded) is Ok <==> decoded is Ok && decoded->Ok_0.len() == 32,
        key_bytes(decoded) is Ok ==> key_bytes(decoded)->Ok_0 == decoded->Ok_0,
        signature_bytes(decoded) is Ok <==> decoded is Ok && decoded->Ok_0.len() == 64,
        signature_bytes(decoded) is Ok ==> signature_bytes(decoded)->Ok_0 == decoded->Ok_0,
        envelope_result(decoded, accepted) is Ok <==> decoded is Ok && decoded->Ok_0.len() == 64
            && accepted,
        decoded is Err ==> envelope_result(decoded, accepted) == Err::<(), LicensingProtoError>(
            LicensingProtoError::Base64(decoded->Err_0),
        ),
        decoded is Ok && decoded->Ok_0.len() == 64 && !accepted ==> envelope_result(
            decoded,
            accepted,
        ) == Err::<(), LicensingProtoError>(LicensingProtoError::InvalidSignature),
{
}

} // verus!
