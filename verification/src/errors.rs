//! The ways in which a command can fail, and the status codes of an authenticator.

use vstd::prelude::*;
use vstd::string::StringExecFns;

use crate::crypto::CryptoError;
use crate::text::{self, signed_decimal_text};

verus! {

/// The commands that a platform sends to an authenticator.
#[derive(Debug, Clone, Copy, PartialEq, Eq, Structural)]
pub enum Command {
    /// `authenticatorClientPIN`.
    ClientPin,
}

/// The status byte that an answer of the authenticator begins with.
#[derive(Debug, Clone, Copy, PartialEq, Eq, Structural)]
pub enum StatusCode {
    /// The command was carried out.
    OK,
    /// The PIN is not one that the authenticator allows.
    PinPolicyViolation,
    /// Any other code.
    Other(u8),
}

/// The status code that the byte `b` stands for.
pub open spec fn status_of(b: u8) -> StatusCode {
    if b == 0x00 {
        StatusCode::OK
    } else if b == 0x37 {
        StatusCode::PinPolicyViolation
    } else {
        StatusCode::Other(b)
    }
}

impl From<u8> for StatusCode {
    fn from(b: u8) -> (r: StatusCode)
        ensures
            b == 0x00 ==> r == StatusCode::OK,
            b == 0x37 ==> r == StatusCode::PinPolicyViolation,
            b != 0x00 && b != 0x37 ==> r == StatusCode::Other(b),
    {
        if b == 0x00 {
            StatusCode::OK
        } else if b == 0x37 {
            StatusCode::PinPolicyViolation
        } else {
            StatusCode::Other(b)
        }
    }
}

impl vstd::std_specs::convert::FromSpecImpl<u8> for StatusCode {
    open spec fn obeys_from_spec() -> bool {
        true
    }

    open spec fn from_spec(b: u8) -> StatusCode {
        status_of(b)
    }
}

impl StatusCode {
    /// Whether the command was carried out.
    pub fn is_ok(&self) -> (r: bool)
        ensures
            r == (*self == StatusCode::OK),
    {
        match self {
            StatusCode::OK => true,
            _ => false,
        }
    }
}

/// The fields that an answer to a PIN command can hold.
#[derive(Debug, Clone, Copy, PartialEq, Eq, Structural)]
pub enum ResponseField {
    KeyAgreement,
    PinToken,
    Retries,
}

impl ResponseField {
    /// The name of the field, as messages spell it.
    pub fn name(&self) -> (r: &'static str)
        ensures
            r@ == self.spelling(),
            *self == ResponseField::KeyAgreement ==> r@ == "key_agreement"@,
            *self == ResponseField::PinToken ==> r@ == "pin_token"@,
            *self == ResponseField::Retries ==> r@ == "retries"@,
    {
        match self {
            ResponseField::KeyAgreement => "key_agreement",
            ResponseField::PinToken => "pin_token",
            ResponseField::Retries => "retries",
        }
    }

    /// The name of the field, as messages spell it.
    pub open spec fn spelling(&self) -> Seq<char> {
        match self {
            ResponseField::KeyAgreement => "key_agreement"@,
            ResponseField::PinToken => "pin_token"@,
            ResponseField::Retries => "retries"@,
        }
    }
}

/// Why the payload of an answer could not be read.
#[derive(Debug)]
pub enum DecodeError {
    /// A data item is malformed, or not of the type that stands in its place.
    Cbor(serde_cbor::Error),
    /// The payload does not start with a map.
    NotAMap,
    /// Tags or the map itself go deeper than `serde_cbor` reads.
    TooDeep,
    /// A field comes twice.
    DuplicateField(ResponseField),
    /// A key that no field has.
    UnexpectedKey(i32),
    /// There are bytes behind the last entry.
    TrailingData,
}

impl DecodeError {
    /// What the reader of answers has to say of the error itself. The rest is up to `serde_cbor`,
    /// or was said with the name of the error.
    pub open spec fn explanation(&self) -> Option<Seq<char>> {
        match self {
            DecodeError::DuplicateField(field) => Some(
                "duplicate field `"@ + field.spelling() + "`"@,
            ),
            DecodeError::UnexpectedKey(key) => Some(
                "unexpected key: "@ + text::signed_decimal(*key as int),
            ),
            _ => None,
        }
    }

    /// What the reader of answers has to say of the error itself, as text.
    pub fn message(&self) -> (r: Option<String>)
        ensures
            match self.explanation() {
                Some(text) => r is Some && r->Some_0@ == text,
                None => r is None,
            },
            match self {
                DecodeError::DuplicateField(ResponseField::KeyAgreement) => r is Some
                    && r->Some_0@ == "duplicate field `"@ + "key_agreement"@ + "`"@,
                DecodeError::DuplicateField(ResponseField::PinToken) => r is Some && r->Some_0@
                    == "duplicate field `"@ + "pin_token"@ + "`"@,
                DecodeError::DuplicateField(ResponseField::Retries) => r is Some && r->Some_0@
                    == "duplicate field `"@ + "retries"@ + "`"@,
                DecodeError::UnexpectedKey(key) => r is Some && r->Some_0@ == "unexpected key: "@
                    + if *key < 0 {
                    "-"@ + text::decimal((-*key) as nat)
                } else {
                    text::decimal(*key as nat)
                },
                _ => r is None,
            },
    {
        match self {
            DecodeError::DuplicateField(field) => Some(
                "duplicate field `".to_owned().concat(field.name()).concat("`"),
            ),
            DecodeError::UnexpectedKey(key) => Some(
                "unexpected key: ".to_owned().concat(signed_decimal_text(*key).as_str()),
            ),
            _ => None,
        }
    }
}

/// A command that failed.
#[derive(Debug)]
pub enum CommandError {
    /// The authenticator does not support the PIN protocol that the platform speaks.
    UnsupportedPinProtocol,
    /// The answer is empty.
    InputTooSmall,
    /// The payload of the answer could not be read.
    Deserializing(DecodeError),
    /// The request could not be written.
    Serializing(serde_cbor::Error),
    /// The answer lacks the field that was asked for.
    MissingRequiredField(&'static str),
    /// The authenticator refused the command; behind its status it may have sent a CBOR value,
    /// which stands here in its encoding.
    StatusCode(StatusCode, Option<Vec<u8>>),
    /// A cryptographic step failed.
    Crypto(CryptoError),
}

impl From<CryptoError> for CommandError {
    fn from(e: CryptoError) -> (r: CommandError)
        ensures
            r == CommandError::Crypto(e),
    {
        CommandError::Crypto(e)
    }
}

impl vstd::std_specs::convert::FromSpecImpl<CryptoError> for CommandError {
    open spec fn obeys_from_spec() -> bool {
        true
    }

    open spec fn from_spec(e: CryptoError) -> CommandError {
        CommandError::Crypto(e)
    }
}

/// An error of the transport that carries the commands.
#[derive(Debug)]
pub enum HIDError {
    /// The command itself failed.
    Command(CommandError),
}

impl From<CommandError> for HIDError {
    fn from(e: CommandError) -> (r: HIDError)
        ensures
            r == HIDError::Command(e),
    {
        HIDError::Command(e)
    }
}

impl vstd::std_specs::convert::FromSpecImpl<CommandError> for HIDError {
    open spec fn obeys_from_spec() -> bool {
        true
    }

    open spec fn from_spec(e: CommandError) -> HIDError {
        HIDError::Command(e)
    }
}

} // verus!
