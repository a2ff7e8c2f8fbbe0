//! The PIN side of a security-key client: the `authenticatorClientPIN` requests that a platform
//! sends to a CTAP2 authenticator, and the answers that it reads back.

pub mod cbor;
pub mod commands;
pub mod crypto;
pub mod errors;
pub mod laws;
pub mod pin;
pub mod request;
pub mod response;
pub mod text;
pub mod wire;

pub use commands::{AuthenticatorInfo, ClientPINSubCommand, KeyAgreement};
pub use commands::{ChangeExistingPin, GetKeyAgreement, GetPinToken, GetRetries, SetNewPin};
pub use crypto::{BackendError, COSEKey, CryptoBackend, CryptoError, ECDHSecret};
pub use errors::{Command, CommandError, DecodeError, HIDError, ResponseField, StatusCode};
pub use pin::{EncryptedPinToken, Pin, PinAuth, PinError, PinToken};
pub use request::{ClientPIN, PINSubcommand};
pub use response::ClientPinResponse;
pub use wire::RequestCtap2;
