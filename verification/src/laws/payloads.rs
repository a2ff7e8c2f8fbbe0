//! Laws of the answers to each command: what the status byte decides, what is read behind it, and
//! which field or failure comes out.

use vstd::prelude::*;

use crate::cbor;
use crate::commands::{self, ChangeExistingPin, ClientPINSubCommand, GetKeyAgreement, GetPinToken};
use crate::commands::{GetRetries, KeyAgreement, SetNewPin};
use crate::crypto::{self, BackendError, CryptoBackend, CryptoError};
use crate::errors::{CommandError, HIDError, StatusCode};
use crate::laws::{encoding, reading, requests, values};
use crate::pin::PinToken;
use crate::response::{self, ClientPinResponse, ReadingModel, ResponseModel};
use crate::wire;

verus! {

/// Behind the status byte zero the command reads the payload, all of it and nothing else; its
/// failures are passed on as they are.
pub proof fn law_success_hands_on_the_payload<B: CryptoBackend, T: ClientPINSubCommand<B>>(
    command: T,
    input: Seq<u8>,
    r: Result<T::Output, HIDError>,
)
    requires
        wire::answer_outcome::<B, T>(command, input, r),
        input.len() > 0,
        input[0] == 0x00,
    ensures
        r is Ok ==> command.payload_outcome(
            input.subrange(1, input.len() as int),
            Ok::<T::Output, CommandError>(r->Ok_0),
        ),
        r is Err ==> command.payload_outcome(
            input.subrange(1, input.len() as int),
            Err::<T::Output, CommandError>(r->Err_0->Command_0),
        ),
{
    assert(input.skip(1) =~= input.subrange(1, input.len() as int));
}

/// Any other status byte is a failure with that very status, which carries the value behind it, if
/// there is one; bytes behind it that are no value are a failure of their own.
pub proof fn law_other_statuses_are_failures<B: CryptoBackend, T: ClientPINSubCommand<B>>(
    command: T,
    input: Seq<u8>,
    r: Result<T::Output, HIDError>,
)
    requires
        wire::answer_outcome::<B, T>(command, input, r),
    ensures
        input.len() == 0 ==> r is Err && r->Err_0->Command_0 is InputTooSmall,
        input.len() > 0 && input[0] != 0x00 ==> r is Err,
        input.len() == 1 && input[0] != 0x00 && input[0] != 0x37 ==> r->Err_0
            == HIDError::Command(CommandError::StatusCode(StatusCode::Other(input[0]), None)),
        input.len() == 1 && input[0] == 0x37 ==> r->Err_0 == HIDError::Command(
            CommandError::StatusCode(StatusCode::PinPolicyViolation, None),
        ),
        input.len() > 1 && input[0] != 0x00 && cbor::is_cbor_value(
            input.subrange(1, input.len() as int),
        ) ==> {
            let e = r->Err_0->Command_0;
            &&& e is StatusCode
            &&& input[0] == 0x37 ==> e->StatusCode_0 == StatusCode::PinPolicyViolation
            &&& input[0] != 0x37 ==> e->StatusCode_0 == StatusCode::Other(input[0])
            &&& e->StatusCode_1 is Some
            &&& e->StatusCode_1->Some_0@ == input.subrange(1, input.len() as int)
        },
        input.len() > 1 && input[0] != 0x00 && !cbor::is_cbor_value(
            input.subrange(1, input.len() as int),
        ) ==> r->Err_0->Command_0 is Deserializing && r->Err_0->Command_0->Deserializing_0 is Cbor,
{
    if input.len() > 0 {
        assert(input.skip(1) =~= input.subrange(1, input.len() as int));
    }
}

/// A payload must be one CBOR value; then its fields are read, or the failure to read them is passed
/// on.
pub proof fn law_payloads_are_values<B: CryptoBackend>(
    input: Seq<u8>,
    r: Result<ClientPinResponse, CommandError>,
)
    requires
        commands::response_outcome::<B>(input, r),
    ensures
        !cbor::is_cbor_value(input) ==> r is Err && r->Err_0 is Deserializing
            && r->Err_0->Deserializing_0 is Cbor,
        cbor::is_cbor_value(input) && r is Ok ==> response::deserialize_outcome::<B>(
            input,
            Ok(r->Ok_0),
        ),
        cbor::is_cbor_value(input) && r is Err ==> r->Err_0 is Deserializing
            && response::deserialize_outcome::<B>(input, Err(r->Err_0->Deserializing_0)),
{
}

/// The retries that a command gives are those of the answer that was read; without them the field
/// "retries" is missing.
pub proof fn law_get_retries_gives_the_retries<B: CryptoBackend>(
    command: GetRetries,
    input: Seq<u8>,
    r: Result<u8, CommandError>,
)
    requires
        ClientPINSubCommand::<B>::payload_outcome(&command, input, r),
    ensures
        exists|response: Result<ClientPinResponse, CommandError>| #[trigger]
            commands::response_outcome::<B>(input, response) && (response is Err ==> r is Err
                && r->Err_0 == response->Err_0) && (response is Ok
                && response->Ok_0.retries is Some ==> r is Ok && r->Ok_0
                == response->Ok_0.retries->Some_0) && (response is Ok
                && response->Ok_0.retries is None ==> r is Err && r->Err_0 is MissingRequiredField
                && r->Err_0->MissingRequiredField_0@ == "retries"@),
{
}

/// The key that a command gives is that of the answer that was read; without one the field
/// "key_agreement" is missing.
pub proof fn law_get_key_agreement_gives_the_key<B: CryptoBackend>(
    command: GetKeyAgreement,
    input: Seq<u8>,
    r: Result<KeyAgreement, CommandError>,
)
    requires
        ClientPINSubCommand::<B>::payload_outcome(&command, input, r),
    ensures
        exists|response: Result<ClientPinResponse, CommandError>| #[trigger]
            commands::response_outcome::<B>(input, response) && (response is Err ==> r is Err
                && r->Err_0 == response->Err_0) && (response is Ok
                && response->Ok_0.key_agreement is Some ==> r is Ok && r->Ok_0@
                == response->Ok_0.key_agreement->Some_0@) && (response is Ok
                && response->Ok_0.key_agreement is None ==> r is Err
                && r->Err_0 is MissingRequiredField && r->Err_0->MissingRequiredField_0@
                == "key_agreement"@),
{
}

/// The token that a command gives is what the backend decrypts, under the shared secret, from the
/// whole token of the answer that was read; an error of the backend is the failure. Without a token
/// the field "key_agreement" is reported missing.
pub proof fn law_get_pin_token_gives_the_token<'sc, 'pin, B: CryptoBackend>(
    command: GetPinToken<'sc, 'pin>,
    input: Seq<u8>,
    r: Result<PinToken, CommandError>,
)
    requires
        ClientPINSubCommand::<B>::payload_outcome(&command, input, r),
    ensures
        exists|response: Result<ClientPinResponse, CommandError>| #[trigger]
            commands::response_outcome::<B>(input, response) && (response is Err ==> r is Err
                && r->Err_0 == response->Err_0) && (response is Ok
                && response->Ok_0.pin_token is None ==> r is Err && r->Err_0 is MissingRequiredField
                && r->Err_0->MissingRequiredField_0@ == "key_agreement"@) && (response is Ok
                && response->Ok_0.pin_token is Some && r is Ok ==> exists|
                k: &[u8],
                d: &[u8],
                token: Vec<u8>,
            | #[trigger]
                call_ensures(B::decrypt, (k, d), Ok::<Vec<u8>, BackendError>(token)) && k@
                    == command.agreement().secret() && d@
                    == response->Ok_0.pin_token->Some_0@ && r->Ok_0@ == token@) && (response is Ok
                && response->Ok_0.pin_token is Some && r is Err ==> exists|
                k: &[u8],
                d: &[u8],
                e: BackendError,
            | #[trigger]
                call_ensures(B::decrypt, (k, d), Err::<Vec<u8>, BackendError>(e)) && k@
                    == command.agreement().secret() && d@
                    == response->Ok_0.pin_token->Some_0@ && r->Err_0 == CommandError::Crypto(
                    CryptoError::Backend(e),
                )),
{
    let secret = command.agreement().secret();
    let response = choose|response: Result<ClientPinResponse, CommandError>| #[trigger]
        commands::response_outcome::<B>(input, response) && match response {
            Ok(response) => commands::pin_token_in::<B>(secret, response@, r),
            Err(e) => r == Err::<PinToken, CommandError>(e),
        };
    if response is Ok && response->Ok_0.pin_token is Some {
        let token = response->Ok_0.pin_token->Some_0@;
        let decrypted = choose|decrypted: Result<Vec<u8>, BackendError>| #[trigger]
            crypto::decrypts::<B>(secret, token, decrypted) && commands::token_result(decrypted, r);
        let (k, d) = choose|k: &[u8], d: &[u8]|
            k@ == secret && d@ == token && #[trigger] call_ensures(B::decrypt, (k, d), decrypted);
        match decrypted {
            Ok(t) => {
                assert(call_ensures(B::decrypt, (k, d), Ok::<Vec<u8>, BackendError>(t)));
            },
            Err(e) => {
                assert(call_ensures(B::decrypt, (k, d), Err::<Vec<u8>, BackendError>(e)));
            },
        }
    }
    assert(commands::response_outcome::<B>(input, response));
}

/// Setting and changing a PIN succeed if and only if the payload is empty or one CBOR value.
pub proof fn law_set_and_change_ignore_the_payload<'sc, 'pin, B: CryptoBackend>(
    set: SetNewPin<'sc, 'pin>,
    change: ChangeExistingPin<'sc, 'pin>,
    input: Seq<u8>,
    r: Result<(), CommandError>,
)
    requires
        ClientPINSubCommand::<B>::payload_outcome(&set, input, r)
            || ClientPINSubCommand::<B>::payload_outcome(&change, input, r),
    ensures
        r is Ok <==> input.len() == 0 || cbor::is_cbor_value(input),
        r is Err ==> r->Err_0 is Deserializing && r->Err_0->Deserializing_0 is Cbor,
{
}

/// On the wire, a count of retries in a map of one entry, after the status zero, is what the command
/// gives, for each count.
pub proof fn law_retries_on_the_wire<B: CryptoBackend>(
    command: GetRetries,
    n: u8,
    r: Result<u8, HIDError>,
)
    requires
        n < 24 ==> wire::answer_outcome::<B, GetRetries>(command, seq![0x00u8, 0xa1, 0x03, n], r),
        n >= 24 ==> wire::answer_outcome::<B, GetRetries>(
            command,
            seq![0x00u8, 0xa1, 0x03, 0x18, n],
            r,
        ),
    ensures
        r is Ok,
        r->Ok_0 == n,
{
    let item = cbor::cbor_uint(n);
    let entry = seq![0x03u8] + item;
    let payload = seq![0xa1u8] + entry;
    let none = Seq::<u8>::empty();
    let fields = ResponseModel { key_agreement: None, pin_token: None, retries: None };
    let end = ResponseModel { key_agreement: None, pin_token: None, retries: Some(n) };
    requests::law_numbers_on_the_wire(n);
    requests::law_numbers_on_the_wire(3);
    let input = seq![0x00u8] + payload;
    if n < 24 {
        assert(input =~= seq![0x00u8, 0xa1, 0x03, n]);
    } else {
        assert(input =~= seq![0x00u8, 0xa1, 0x03, 0x18, n]);
    }
    assert(input.subrange(1, input.len() as int) =~= payload);
    law_success_hands_on_the_payload::<B, GetRetries>(command, input, r);
    // one value
    values::lemma_scalars_are_plain(n, none, 126);
    let entries = seq![(3u8, item)];
    reveal_with_fuel(crate::request::flat, 2);
    assert(crate::request::flat(entries) =~= entry) by {
        assert(entries.drop_last() =~= Seq::empty());
    }
    assert(cbor::cbor_head(5, 1) =~= seq![0xa1u8]);
    values::law_plain_maps_are_values(entries);
    // its field
    encoding::law_head_reads_back(5, 1, entry);
    reading::law_map_heads(payload);
    reading::law_answers_are_maps(payload);
    assert(payload.skip(1) =~= entry);
    encoding::law_uint_reads_back(3, item, 126);
    assert(entry.skip(1) =~= item);
    assert(item + none =~= item);
    encoding::law_uint_reads_back(n, none, 126);
    reading::law_key_three_brings_the_retries(fields, entry, 1, Some(1), 126);
    assert(entry.skip((1 + item.len()) as int) =~= none);
    reading::law_maps_end(end, none, 126);
    assert(response::response_read(payload) == ReadingModel::Done(end));
    if r is Ok {
        law_get_retries_gives_the_retries::<B>(command, payload, Ok(r->Ok_0));
    } else {
        law_get_retries_gives_the_retries::<B>(command, payload, Err(r->Err_0->Command_0));
    }
    assert forall|response: Result<ClientPinResponse, CommandError>| #[trigger]
        commands::response_outcome::<B>(payload, response) implies response is Ok
        && response->Ok_0.retries == Some(n) by {
        law_payloads_are_values::<B>(payload, response);
        match response {
            Ok(fields) => {
                reading::law_keys_are_read_by_the_backend::<B>(payload, Ok(fields));
                reading::law_readings_end(ReadingModel::Done(end), Ok(fields));
                reading::law_answer_contents_are_its_fields(fields);
            },
            Err(e) => {
                reading::law_keys_are_read_by_the_backend::<B>(
                    payload,
                    Err(e->Deserializing_0),
                );
                reading::law_readings_end(ReadingModel::Done(end), Err(e->Deserializing_0));
            },
        }
    }
}

} // verus!
