//! PINs and what is derived from them: the truncated hash, the token, the authentication code,
//! and the errors that a user of PINs meets.

use vstd::prelude::*;
use vstd::slice::{slice_subrange, slice_to_vec};
use vstd::string::StringExecFns;

use crate::cbor::{self, encode_bytes};
use crate::crypto::{self, sha256, BackendError, CryptoBackend, CryptoError};
use crate::text::{self, decimal_text};

verus! {

/// The longest PIN that can be set, in bytes.
pub const MAX_PIN_BYTES: usize = 63;

/// The size of the block that a new PIN is sent in, in bytes.
pub const PIN_BLOCK_BYTES: usize = 64;

/// The left 16 bytes of a digest.
pub open spec fn left16(digest: Seq<u8>) -> Seq<u8> {
    digest.take(16)
}

/// The block that carries a new PIN: the bytes of the PIN, then zeros up to 64 bytes.
pub open spec fn pin_block(pin: Seq<u8>) -> Seq<u8> {
    Seq::new(64, |i: int| if i < pin.len() { pin[i] } else { 0u8 })
}

/// The left 16 bytes of an HMAC-SHA-256 or SHA-256 digest, which stand for the whole.
#[derive(Debug)]
pub struct PinAuth(Vec<u8>);

impl View for PinAuth {
    type V = Seq<u8>;

    closed spec fn view(&self) -> Seq<u8> {
        self.0@
    }
}

impl Clone for PinAuth {
    fn clone(&self) -> (r: Self)
        ensures
            r@ == self@,
    {
        PinAuth(self.0.clone())
    }
}

impl PinAuth {
    /// The empty code.
    pub fn empty_pin_auth() -> (r: PinAuth)
        ensures
            r@ == Seq::<u8>::empty(),
    {
        PinAuth(Vec::new())
    }

    /// The left 16 bytes of `digest`.
    pub fn from_digest(digest: &[u8]) -> (r: PinAuth)
        requires
            digest@.len() >= 16,
        ensures
            r@ == left16(digest@),
            r@.len() == 16,
            forall|i: int| 0 <= i < 16 ==> r@[i] == digest@[i],
    {
        PinAuth(slice_to_vec(slice_subrange(digest, 0, 16)))
    }

    /// The bytes of the code.
    pub fn as_ref(&self) -> (r: &[u8])
        ensures
            r@ == self@,
    {
        self.0.as_slice()
    }

    /// The code as a CBOR byte string.
    pub fn serialize(&self) -> (r: Result<Vec<u8>, serde_cbor::Error>)
        ensures
            r is Ok,
            r->Ok_0@ == cbor::cbor_bytes(self@),
            self@.len() < 24 ==> r->Ok_0@ == seq![(0x40 + self@.len()) as u8] + self@,
    {
        encode_bytes(self.0.as_slice())
    }
}

/// A PIN token as the authenticator sends it, encrypted under the shared secret.
#[derive(Debug)]
pub struct EncryptedPinToken(Vec<u8>);

impl View for EncryptedPinToken {
    type V = Seq<u8>;

    closed spec fn view(&self) -> Seq<u8> {
        self.0@
    }
}

impl EncryptedPinToken {
    /// The token that `bytes` hold.
    pub(crate) fn new(bytes: Vec<u8>) -> (r: EncryptedPinToken)
        ensures
            r@ == bytes@,
    {
        EncryptedPinToken(bytes)
    }

    /// The bytes of the encrypted token.
    pub fn as_ref(&self) -> (r: &[u8])
        ensures
            r@ == self@,
    {
        self.0.as_slice()
    }
}

/// `r` is an outcome of authenticating `payload` under `key`: the left 16 bytes of the code, or
/// the error of the backend.
pub open spec fn auth_outcome<B: CryptoBackend>(
    key: Seq<u8>,
    payload: Seq<u8>,
    r: Result<PinAuth, CryptoError>,
) -> bool {
    exists|mac: Result<[u8; 32], BackendError>| #[trigger]
        crypto::authenticates::<B>(key, payload, mac) && match mac {
            Ok(code) => r is Ok && r->Ok_0@ == left16(code@),
            Err(e) => r == Err::<PinAuth, CryptoError>(CryptoError::Backend(e)),
        }
}

/// A PIN token: the key under which the platform authenticates its requests.
#[derive(Debug)]
pub struct PinToken(Vec<u8>);

impl View for PinToken {
    type V = Seq<u8>;

    closed spec fn view(&self) -> Seq<u8> {
        self.0@
    }
}

impl PinToken {
    /// The token that `bytes` hold.
    pub(crate) fn new(bytes: Vec<u8>) -> (r: PinToken)
        ensures
            r@ == bytes@,
    {
        PinToken(bytes)
    }

    /// The bytes of the token.
    pub fn as_ref(&self) -> (r: &[u8])
        ensures
            r@ == self@,
    {
        self.0.as_slice()
    }

    /// Authenticates `payload`: the left 16 bytes of its HMAC-SHA-256 under the token.
    pub fn auth<B: CryptoBackend>(&self, payload: &[u8]) -> (r: Result<PinAuth, CryptoError>)
        ensures
            auth_outcome::<B>(self@, payload@, r),
            r is Ok ==> r->Ok_0@.len() == 16,
            r is Ok ==> exists|key: &[u8], data: &[u8], code: [u8; 32]| #[trigger]
                call_ensures(B::authenticate, (key, data), Ok::<[u8; 32], BackendError>(code))
                    && key@ == self@ && data@ == payload@ && r->Ok_0@ == code@.subrange(0, 16),
            r is Err ==> exists|key: &[u8], data: &[u8], e: BackendError| #[trigger]
                call_ensures(B::authenticate, (key, data), Err::<[u8; 32], BackendError>(e))
                    && key@ == self@ && data@ == payload@ && r->Err_0 == CryptoError::Backend(e),
    {
        let key = self.as_ref();
        let mac = B::authenticate(key, payload);
        assert(crypto::authenticates::<B>(self@, payload@, mac));
        match mac {
            Ok(code) => {
                assert(call_ensures(
                    B::authenticate,
                    (key, payload),
                    Ok::<[u8; 32], BackendError>(code),
                ));
                Ok(PinAuth::from_digest(code.as_slice()))
            },
            Err(e) => Err(CryptoError::from(e)),
        }
    }
}

/// A PIN. Its characters are not to be shown, so it has no derived debug rendering.
pub struct Pin(String);

impl View for Pin {
    type V = Seq<char>;

    closed spec fn view(&self) -> Seq<char> {
        self.0@
    }
}

impl Clone for Pin {
    fn clone(&self) -> (r: Self)
        ensures
            r@ == self@,
    {
        Pin(self.0.clone())
    }
}

impl Pin {
    /// The bytes of the PIN, in UTF-8.
    pub open spec fn bytes(&self) -> Seq<u8> {
        vstd::utf8::encode_utf8(self@)
    }

    /// The truncated hash by which the authenticator knows the PIN.
    pub open spec fn pin_hash(&self) -> Seq<u8> {
        left16(crypto::sha256_digest(self.bytes()))
    }

    /// The PIN with the characters of `value`.
    pub fn new(value: &str) -> (r: Pin)
        ensures
            r@ == value@,
    {
        Pin(value.to_owned())
    }

    /// The left 16 bytes of the SHA-256 digest of the PIN.
    pub fn for_pin_token(&self) -> (r: PinAuth)
        ensures
            r@ == self.pin_hash(),
            r@.len() == 16,
            r@ == crypto::sha256_digest(vstd::utf8::encode_utf8(self@)).subrange(0, 16),
            forall|i: int|
                0 <= i < 16 ==> r@[i] == crypto::sha256_digest(vstd::utf8::encode_utf8(self@))[i],
    {
        let digest = sha256(self.as_bytes());
        PinAuth::from_digest(digest.as_slice())
    }

    /// The bytes of the PIN, in UTF-8.
    pub fn as_bytes(&self) -> (r: &[u8])
        ensures
            r@ == self.bytes(),
            r@ == vstd::utf8::encode_utf8(self@),
    {
        self.0.as_str().as_bytes()
    }

    /// What a debug rendering shows: the same for every PIN.
    pub fn debug_text(&self) -> (r: String)
        ensures
            r@ == "Pin(redacted)"@,
    {
        "Pin(redacted)".to_owned()
    }

    /// The block in which this PIN is sent as a new one, unless it is longer than 63 bytes.
    pub fn block(&self) -> (r: Option<Vec<u8>>)
        ensures
            r is Some <==> self.bytes().len() <= 63,
            r is Some ==> r->Some_0@ == pin_block(self.bytes()),
            r is Some <==> vstd::utf8::encode_utf8(self@).len() <= 63,
            r is Some ==> r->Some_0@.len() == 64 && forall|i: int|
                0 <= i < 64 ==> r->Some_0@[i] == if i < vstd::utf8::encode_utf8(self@).len() {
                    vstd::utf8::encode_utf8(self@)[i]
                } else {
                    0
                },
    {
        let bytes = self.as_bytes();
        if bytes.len() > MAX_PIN_BYTES {
            return None;
        }
        let mut block: Vec<u8> = slice_to_vec(bytes);
        block.resize(PIN_BLOCK_BYTES, 0u8);
        assert(block@ =~= pin_block(self.bytes()));
        Some(block)
    }
}

/// What goes wrong with a PIN.
#[derive(Debug, Clone)]
pub enum PinError {
    PinRequired,
    PinIsTooShort,
    PinIsTooLong(usize),
    InvalidKeyLen,
    /// The PIN was wrong; the number is that of the attempts left, where it is known.
    InvalidPin(Option<u8>),
    PinAuthBlocked,
    PinBlocked,
    Backend(BackendError),
}

impl PinError {
    /// The message that a user is shown.
    pub open spec fn message(&self) -> Seq<char> {
        match self {
            PinError::PinRequired => "PinError: Pin required."@,
            PinError::PinIsTooShort => "PinError: pin is too short"@,
            PinError::PinIsTooLong(len) => "PinError: pin is too long ("@ + text::decimal(*len as nat)
                + ")"@,
            PinError::InvalidKeyLen => "PinError: invalid key len"@,
            PinError::InvalidPin(None) => "PinError: Invalid Pin."@,
            PinError::InvalidPin(Some(retries)) => "PinError: Invalid Pin."@ + " Retries left: "@
                + text::decimal(*retries as nat),
            PinError::PinAuthBlocked =>
                "PinError: Pin authentication blocked. Device needs power cycle."@,
            PinError::PinBlocked => "PinError: No retries left. Pin blocked. Device needs reset."@,
            PinError::Backend(e) => "PinError: Crypto backend error: "@ + e.0@,
        }
    }

    /// The message that a user is shown, as text.
    pub fn to_string(&self) -> (r: String)
        ensures
            r@ == self.message(),
            match self {
                PinError::PinRequired => r@ == "PinError: Pin required."@,
                PinError::PinIsTooShort => r@ == "PinError: pin is too short"@,
                PinError::PinIsTooLong(len) => r@ == "PinError: pin is too long ("@
                    + text::decimal(*len as nat) + ")"@,
                PinError::InvalidKeyLen => r@ == "PinError: invalid key len"@,
                PinError::InvalidPin(None) => r@ == "PinError: Invalid Pin."@,
                PinError::InvalidPin(Some(retries)) => r@ == "PinError: Invalid Pin."@
                    + " Retries left: "@ + text::decimal(*retries as nat),
                PinError::PinAuthBlocked => r@
                    == "PinError: Pin authentication blocked. Device needs power cycle."@,
                PinError::PinBlocked => r@
                    == "PinError: No retries left. Pin blocked. Device needs reset."@,
                PinError::Backend(e) => r@ == "PinError: Crypto backend error: "@ + e.0@,
            },
    {
        match self {
            PinError::PinRequired => "PinError: Pin required.".to_owned(),
            PinError::PinIsTooShort => "PinError: pin is too short".to_owned(),
            PinError::PinIsTooLong(len) => "PinError: pin is too long (".to_owned().concat(
                decimal_text(*len as u64).as_str(),
            ).concat(")"),
            PinError::InvalidKeyLen => "PinError: invalid key len".to_owned(),
            PinError::InvalidPin(retries) => {
                let text: String = "PinError: Invalid Pin.".to_owned();
                match retries {
                    Some(retries) => text.concat(" Retries left: ").concat(
                        decimal_text(*retries as u64).as_str(),
                    ),
                    None => text,
                }
            },
            PinError::PinAuthBlocked =>
                "PinError: Pin authentication blocked. Device needs power cycle.".to_owned(),
            PinError::PinBlocked =>
                "PinError: No retries left. Pin blocked. Device needs reset.".to_owned(),
            PinError::Backend(e) => "PinError: Crypto backend error: ".to_owned().concat(
                e.0.as_str(),
            ),
        }
    }
}

impl From<BackendError> for PinError {
    fn from(e: BackendError) -> (r: PinError)
        ensures
            r == PinError::Backend(e),
    {
        PinError::Backend(e)
    }
}

impl vstd::std_specs::convert::FromSpecImpl<BackendError> for PinError {
    open spec fn obeys_from_spec() -> bool {
        true
    }

    open spec fn from_spec(e: BackendError) -> PinError {
        PinError::Backend(e)
    }
}

} // verus!
