//! The bytes that go to the authenticator and come back: a request as it is sent, and an answer
//! with its status byte before the payload.

use vstd::prelude::*;
use vstd::slice::{slice_subrange, slice_to_vec};

use crate::cbor::{self, check_value};
use crate::commands::{self, ClientPINSubCommand};
use crate::crypto::CryptoBackend;
use crate::errors::{self, Command, CommandError, DecodeError, HIDError, StatusCode};
use crate::request::ClientPIN;

verus! {

/// `r` is the payload of the answer `input`, or the failure that its status byte stands for.
///
/// An answer has a status byte. After success the payload follows; after a refusal there may be
/// one CBOR value, which goes along with the status.
pub open spec fn payload_of(input: Seq<u8>, r: Result<&[u8], CommandError>) -> bool {
    if input.len() == 0 {
        r is Err && r->Err_0 is InputTooSmall
    } else {
        let status = errors::status_of(input[0]);
        let behind = input.skip(1);
        if status == StatusCode::OK {
            r is Ok && r->Ok_0@ == behind
        } else if behind.len() == 0 {
            r is Err && r->Err_0 == CommandError::StatusCode(status, None)
        } else if cbor::is_cbor_value(behind) {
            &&& r is Err
            &&& r->Err_0 is StatusCode
            &&& r->Err_0->StatusCode_0 == status
            &&& cbor::opt_view(r->Err_0->StatusCode_1) == Some(behind)
        } else {
            r is Err && commands::not_a_value(r->Err_0)
        }
    }
}

/// The payload of the answer `input`, or the failure that its status byte stands for.
pub fn response_payload(input: &[u8]) -> (r: Result<&[u8], CommandError>)
    ensures
        payload_of(input@, r),
        input@.len() == 0 ==> r is Err && r->Err_0 is InputTooSmall,
        input@.len() > 0 && input@[0] == 0x00 ==> r is Ok && r->Ok_0@ == input@.subrange(
            1,
            input@.len() as int,
        ),
        input@.len() == 1 && input@[0] != 0x00 ==> {
            &&& r is Err
            &&& r->Err_0 is StatusCode
            &&& input@[0] == 0x37 ==> r->Err_0->StatusCode_0 == StatusCode::PinPolicyViolation
            &&& input@[0] != 0x37 ==> r->Err_0->StatusCode_0 == StatusCode::Other(input@[0])
            &&& r->Err_0->StatusCode_1 is None
        },
        input@.len() > 1 && input@[0] != 0x00 && cbor::is_cbor_value(
            input@.subrange(1, input@.len() as int),
        ) ==> {
            &&& r is Err
            &&& r->Err_0 is StatusCode
            &&& input@[0] == 0x37 ==> r->Err_0->StatusCode_0 == StatusCode::PinPolicyViolation
            &&& input@[0] != 0x37 ==> r->Err_0->StatusCode_0 == StatusCode::Other(input@[0])
            &&& r->Err_0->StatusCode_1 is Some
            &&& r->Err_0->StatusCode_1->Some_0@ == input@.subrange(1, input@.len() as int)
        },
        input@.len() > 1 && input@[0] != 0x00 && !cbor::is_cbor_value(
            input@.subrange(1, input@.len() as int),
        ) ==> r is Err && r->Err_0 is Deserializing && r->Err_0->Deserializing_0 is Cbor,
{
    if input.len() == 0 {
        return Err(CommandError::InputTooSmall);
    }
    let status = StatusCode::from(input[0]);
    let behind = slice_subrange(input, 1, input.len());
    assert(behind@ =~= input@.skip(1));
    if status.is_ok() {
        return Ok(behind);
    }
    if input.len() > 1 {
        match check_value(behind) {
            Ok(()) => Err(CommandError::StatusCode(status, Some(slice_to_vec(behind)))),
            Err(e) => Err(CommandError::Deserializing(DecodeError::Cbor(e))),
        }
    } else {
        Err(CommandError::StatusCode(status, None))
    }
}

/// A request to a CTAP2 authenticator, where `B` does the cryptography.
pub trait RequestCtap2<B: CryptoBackend>: Sized {
    /// What the answer means.
    type Output;

    /// The command that the request is one of.
    fn command() -> Command;

    /// The bytes of the request, without the command byte.
    fn wire_format(&self) -> Result<Vec<u8>, HIDError>;

    /// Reads the answer `input`.
    fn handle_response_ctap2(&self, input: &[u8]) -> Result<Self::Output, HIDError>;
}

/// `r` is an outcome of writing the request of `subcommand`: the encoding of the request that the
/// subcommand makes, or the failure of making it.
pub open spec fn wire_outcome<B: CryptoBackend, T: ClientPINSubCommand<B>>(
    subcommand: T,
    r: Result<Vec<u8>, HIDError>,
) -> bool {
    exists|request: Result<ClientPIN, CommandError>| #[trigger]
        subcommand.client_pin_outcome(request) && match request {
            Ok(request) => r is Ok && r->Ok_0@ == request@.encoding(),
            Err(e) => r == Err::<Vec<u8>, HIDError>(HIDError::Command(e)),
        }
}

/// `r` is an outcome of reading the answer `input` to `subcommand`: what the subcommand makes of
/// the payload, or the failure that the status byte stands for.
pub open spec fn answer_outcome<B: CryptoBackend, T: ClientPINSubCommand<B>>(
    subcommand: T,
    input: Seq<u8>,
    r: Result<T::Output, HIDError>,
) -> bool {
    exists|payload: Result<&[u8], CommandError>| #[trigger]
        payload_of(input, payload) && match payload {
            Ok(payload) => match r {
                Ok(output) => subcommand.payload_outcome(payload@, Ok(output)),
                Err(HIDError::Command(e)) => subcommand.payload_outcome(payload@, Err(e)),
            },
            Err(e) => r == Err::<T::Output, HIDError>(HIDError::Command(e)),
        }
}

impl<B: CryptoBackend, T: ClientPINSubCommand<B>> RequestCtap2<B> for T {
    type Output = <T as ClientPINSubCommand<B>>::Output;

    fn command() -> (r: Command)
        ensures
            r == Command::ClientPin,
    {
        Command::ClientPin
    }

    fn wire_format(&self) -> (r: Result<Vec<u8>, HIDError>)
        ensures
            wire_outcome::<B, T>(*self, r),
    {
        let request = self.as_client_pin();
        assert(self.client_pin_outcome(request));
        let client_pin = match request {
            Ok(client_pin) => client_pin,
            Err(e) => return Err(HIDError::from(e)),
        };
        match client_pin.serialize() {
            Ok(output) => Ok(output),
            Err(e) => Err(HIDError::from(CommandError::Serializing(e))),
        }
    }

    fn handle_response_ctap2(&self, input: &[u8]) -> (r: Result<
        <T as ClientPINSubCommand<B>>::Output,
        HIDError,
    >)
        ensures
            answer_outcome::<B, T>(*self, input@, r),
    {
        let payload = response_payload(input);
        assert(payload_of(input@, payload));
        match payload {
            Ok(payload) => match self.parse_response_payload(payload) {
                Ok(output) => Ok(output),
                Err(e) => Err(HIDError::from(e)),
            },
            Err(e) => Err(HIDError::from(e)),
        }
    }
}

} // verus!
