//! What the PIN commands need of cryptography: the key and secret that they carry, the errors
//! that come back, the backend that does the work, and SHA-256.

use vstd::prelude::*;
use sha2::{Digest, Sha256};

use crate::cbor::{self, check_value};

verus! {

/// An error that the cryptographic backend reported, as the text of its debug rendering.
#[derive(Debug)]
pub struct BackendError(pub String);

impl Clone for BackendError {
    fn clone(&self) -> (r: Self)
        ensures
            r == *self,
    {
        BackendError(self.0.clone())
    }
}

/// A failed cryptographic step.
#[derive(Debug)]
pub enum CryptoError {
    /// The backend itself failed.
    Backend(BackendError),
}

impl From<BackendError> for CryptoError {
    fn from(e: BackendError) -> (r: CryptoError)
        ensures
            r == CryptoError::Backend(e),
    {
        CryptoError::Backend(e)
    }
}

impl vstd::std_specs::convert::FromSpecImpl<BackendError> for CryptoError {
    open spec fn obeys_from_spec() -> bool {
        true
    }

    open spec fn from_spec(e: BackendError) -> CryptoError {
        CryptoError::Backend(e)
    }
}

/// A public key of the key agreement, in its COSE encoding: one CBOR value.
#[derive(Debug)]
pub struct COSEKey {
    encoded: Vec<u8>,
}

impl View for COSEKey {
    type V = Seq<u8>;

    closed spec fn view(&self) -> Seq<u8> {
        self.encoded@
    }
}

impl COSEKey {
    #[verifier::type_invariant]
    spec fn one_value(self) -> bool {
        cbor::is_cbor_value(self.encoded@)
    }

    /// The key whose COSE encoding is `encoded`, which must be one CBOR value.
    pub fn new(encoded: Vec<u8>) -> (r: Result<COSEKey, serde_cbor::Error>)
        ensures
            r is Ok <==> cbor::is_cbor_value(encoded@),
            r is Ok ==> r->Ok_0@ == encoded@,
    {
        match check_value(encoded.as_slice()) {
            Ok(()) => Ok(COSEKey { encoded }),
            Err(e) => Err(e),
        }
    }

    /// The COSE encoding of the key.
    pub fn encoded(&self) -> (r: &[u8])
        ensures
            r@ == self@,
            cbor::is_cbor_value(r@),
    {
        proof {
            use_type_invariant(self);
        }
        self.encoded.as_slice()
    }
}

impl Clone for COSEKey {
    fn clone(&self) -> (r: Self)
        ensures
            r@ == self@,
    {
        proof {
            use_type_invariant(self);
        }
        COSEKey { encoded: self.encoded.clone() }
    }
}

/// The outcome of one key agreement: the secret shared with the authenticator, and the public
/// key that the authenticator needs to arrive at the same secret.
#[derive(Debug)]
pub struct ECDHSecret {
    my: COSEKey,
    shared_secret: Vec<u8>,
}

impl ECDHSecret {
    /// The bytes of the shared secret.
    pub closed spec fn secret(&self) -> Seq<u8> {
        self.shared_secret@
    }

    /// The platform's own public key.
    pub closed spec fn public_key(&self) -> Seq<u8> {
        self.my@
    }

    /// A secret shared under the platform's public key `my`.
    pub fn new(my: COSEKey, shared_secret: Vec<u8>) -> (r: ECDHSecret)
        ensures
            r.secret() == shared_secret@,
            r.public_key() == my@,
    {
        ECDHSecret { my, shared_secret }
    }

    /// The platform's own public key of this agreement.
    pub fn my_public_key(&self) -> (r: &COSEKey)
        ensures
            r@ == self.public_key(),
    {
        &self.my
    }

    /// The bytes of the shared secret.
    pub fn shared_secret(&self) -> (r: &[u8])
        ensures
            r@ == self.secret(),
    {
        self.shared_secret.as_slice()
    }
}

/// The cryptographic library that a client is built with. Nothing is taken for granted of its
/// results: what the commands do is stated for whatever an implementation returns.
pub trait CryptoBackend {
    /// AES-256-CBC encryption of `data` under `key`, with an all-zero IV and no padding.
    fn encrypt(key: &[u8], data: &[u8]) -> Result<Vec<u8>, BackendError>;

    /// The inverse of `encrypt`.
    fn decrypt(key: &[u8], data: &[u8]) -> Result<Vec<u8>, BackendError>;

    /// HMAC-SHA-256 of `data` under `key`.
    fn authenticate(key: &[u8], data: &[u8]) -> Result<[u8; 32], BackendError>;

    /// Agrees on a secret with the owner of `peer`, under a fresh key of the platform.
    fn encapsulate(peer: &COSEKey) -> Result<ECDHSecret, BackendError>;

    /// Reads a COSE key out of the CBOR item `item`.
    fn parse_key(item: &[u8]) -> Result<COSEKey, serde_cbor::Error>;
}

/// `r` is an outcome of encrypting `data` under `key`.
pub open spec fn encrypts<B: CryptoBackend>(
    key: Seq<u8>,
    data: Seq<u8>,
    r: Result<Vec<u8>, BackendError>,
) -> bool {
    exists|k: &[u8], d: &[u8]|
        k@ == key && d@ == data && #[trigger] call_ensures(B::encrypt, (k, d), r)
}

/// `r` is an outcome of decrypting `data` under `key`.
pub open spec fn decrypts<B: CryptoBackend>(
    key: Seq<u8>,
    data: Seq<u8>,
    r: Result<Vec<u8>, BackendError>,
) -> bool {
    exists|k: &[u8], d: &[u8]|
        k@ == key && d@ == data && #[trigger] call_ensures(B::decrypt, (k, d), r)
}

/// `r` is an outcome of authenticating `data` under `key`.
pub open spec fn authenticates<B: CryptoBackend>(
    key: Seq<u8>,
    data: Seq<u8>,
    r: Result<[u8; 32], BackendError>,
) -> bool {
    exists|k: &[u8], d: &[u8]|
        k@ == key && d@ == data && #[trigger] call_ensures(B::authenticate, (k, d), r)
}

/// `r` is an outcome of agreeing on a secret with the owner of `peer`.
pub open spec fn encapsulates<B: CryptoBackend>(
    peer: Seq<u8>,
    r: Result<ECDHSecret, BackendError>,
) -> bool {
    exists|p: &COSEKey| p@ == peer && #[trigger] call_ensures(B::encapsulate, (p,), r)
}

/// `r` is an outcome of reading the CBOR item `item` as a COSE key.
pub open spec fn parses_key<B: CryptoBackend>(
    item: Seq<u8>,
    r: Result<COSEKey, serde_cbor::Error>,
) -> bool {
    exists|i: &[u8]| i@ == item && #[trigger] call_ensures(B::parse_key, (i,), r)
}

/// The SHA-256 digest of `data`.
pub uninterp spec fn sha256_digest(data: Seq<u8>) -> Seq<u8>;

/// Calls `sha2::Sha256`: a new hasher, fed with the whole of `data`, then finished. What comes
/// back is the digest of `data`, which always has 32 bytes.
#[verifier::external_body]
pub(crate) fn sha256(data: &[u8]) -> (r: Vec<u8>)
    ensures
        r@ == sha256_digest(data@),
        r@.len() == 32,
{
    let mut hasher = Sha256::new();
    hasher.input(data);
    hasher.result().as_slice().to_vec()
}

} // verus!
