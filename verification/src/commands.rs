//! The PIN commands: what each of them asks of the authenticator, and what it makes of the answer.

use vstd::prelude::*;
use vstd::slice::slice_to_vec;

use crate::cbor::{self, check_value};
use crate::crypto::{self, BackendError, COSEKey, CryptoBackend, CryptoError, ECDHSecret};
use crate::errors::{CommandError, DecodeError, StatusCode};
use crate::pin::{self, EncryptedPinToken, Pin, PinAuth, PinToken};
use crate::request::{self, ClientPIN, PINSubcommand, RequestModel};
use crate::response::{self, ClientPinResponse};

verus! {

/// What an authenticator says of itself, as far as the PIN commands look at it.
#[derive(Debug)]
pub struct AuthenticatorInfo {
    /// The PIN protocols that the authenticator supports.
    pub pin_protocols: Vec<u64>,
}

impl AuthenticatorInfo {
    /// Whether the authenticator supports PIN protocol one, the only one spoken here.
    pub open spec fn speaks_one(&self) -> bool {
        self.pin_protocols@.contains(1)
    }

    /// Whether the authenticator supports PIN protocol one, the only one spoken here.
    pub fn supports_protocol_one(&self) -> (r: bool)
        ensures
            r == self.speaks_one(),
            r <==> exists|i: int|
                0 <= i < self.pin_protocols@.len() && #[trigger] self.pin_protocols@[i] == 1,
    {
        let mut i: usize = 0;
        while i < self.pin_protocols.len()
            invariant
                i <= self.pin_protocols@.len(),
                forall|j: int| 0 <= j < i ==> self.pin_protocols@[j] != 1,
            decreases self.pin_protocols@.len() - i,
        {
            if self.pin_protocols[i] == 1 {
                return true;
            }
            i = i + 1;
        }
        false
    }
}

/// A subcommand of `authenticatorClientPIN`: the request that it makes, and the meaning of the
/// payload that comes back, where `B` does the cryptography.
pub trait ClientPINSubCommand<B: CryptoBackend>: Sized {
    /// What the payload of the answer means.
    type Output;

    /// `r` is an outcome of making the request.
    spec fn client_pin_outcome(
        &self,
        r: Result<ClientPIN, CommandError>,
    ) -> bool;

    /// `r` is an outcome of reading the payload `input`.
    spec fn payload_outcome(
        &self,
        input: Seq<u8>,
        r: Result<Self::Output, CommandError>,
    ) -> bool;

    /// Makes the request.
    fn as_client_pin(&self) -> (r: Result<ClientPIN, CommandError>)
        ensures
            self.client_pin_outcome(r),
    ;

    /// Reads the payload `input` of the answer.
    fn parse_response_payload(&self, input: &[u8]) -> (r: Result<
        Self::Output,
        CommandError,
    >)
        ensures
            self.payload_outcome(input@, r),
    ;
}

/// `r` is the request with the contents `model`.
pub open spec fn requests(r: Result<ClientPIN, CommandError>, model: RequestModel) -> bool {
    r is Ok && r->Ok_0@ == model
}

/// The failure of a command whose backend failed with `e`.
pub open spec fn backend_failure(e: BackendError) -> CommandError {
    CommandError::Crypto(CryptoError::Backend(e))
}

/// The failure of a command whose answer lacks the field with the name `field`.
pub open spec fn lacks_field(e: CommandError, field: Seq<char>) -> bool {
    e is MissingRequiredField && e->MissingRequiredField_0@ == field
}

/// The failure of a command whose payload is not one CBOR value.
pub open spec fn not_a_value(e: CommandError) -> bool {
    e is Deserializing && e->Deserializing_0 is Cbor
}

/// The failure of a command that would set a PIN of more than 63 bytes.
pub open spec fn policy_violation() -> CommandError {
    CommandError::StatusCode(StatusCode::PinPolicyViolation, None)
}

/// `r` is an outcome of reading the payload `input`: it must be one CBOR value, and the fields of
/// an answer.
pub open spec fn response_outcome<B: CryptoBackend>(
    input: Seq<u8>,
    r: Result<ClientPinResponse, CommandError>,
) -> bool {
    if cbor::is_cbor_value(input) {
        match r {
            Ok(response) => response::deserialize_outcome::<B>(input, Ok(response)),
            Err(CommandError::Deserializing(e)) => response::deserialize_outcome::<B>(
                input,
                Err(e),
            ),
            Err(_) => false,
        }
    } else {
        r is Err && not_a_value(r->Err_0)
    }
}

/// Reads the fields of the answer that the payload `input` holds.
pub fn read_response<B: CryptoBackend>(input: &[u8]) -> (r: Result<ClientPinResponse, CommandError>)
    ensures
        response_outcome::<B>(input@, r),
{
    match check_value(input) {
        Ok(()) => {},
        Err(e) => return Err(CommandError::Deserializing(DecodeError::Cbor(e))),
    }
    match ClientPinResponse::deserialize::<B>(input) {
        Ok(response) => Ok(response),
        Err(e) => Err(CommandError::Deserializing(e)),
    }
}

/// `r` is the outcome of reading a payload that may be empty, and whose value means nothing.
pub open spec fn ignored_outcome(input: Seq<u8>, r: Result<(), CommandError>) -> bool {
    if input.len() == 0 || cbor::is_cbor_value(input) {
        r is Ok
    } else {
        r is Err && not_a_value(r->Err_0)
    }
}

/// Reads a payload that should be empty or one CBOR value, which is ignored.
pub fn ignore_payload(input: &[u8]) -> (r: Result<(), CommandError>)
    ensures
        ignored_outcome(input@, r),
        r is Ok <==> input@.len() == 0 || cbor::is_cbor_value(input@),
        r is Err ==> r->Err_0 is Deserializing && r->Err_0->Deserializing_0 is Cbor,
{
    if input.len() == 0 {
        return Ok(());
    }
    match check_value(input) {
        Ok(()) => Ok(()),
        Err(e) => Err(CommandError::Deserializing(DecodeError::Cbor(e))),
    }
}

/// The authenticator's public key of the key agreement.
#[derive(Debug)]
pub struct KeyAgreement(COSEKey);

impl View for KeyAgreement {
    type V = Seq<u8>;

    closed spec fn view(&self) -> Seq<u8> {
        self.0@
    }
}

impl KeyAgreement {
    /// Agrees on a secret with the authenticator.
    pub fn shared_secret<B: CryptoBackend>(&self) -> (r: Result<ECDHSecret, CommandError>)
        ensures
            match r {
                Ok(secret) => crypto::encapsulates::<B>(self@, Ok(secret)),
                Err(CommandError::Crypto(CryptoError::Backend(e))) => crypto::encapsulates::<B>(
                    self@,
                    Err(e),
                ),
                Err(_) => false,
            },
            match r {
                Ok(secret) => exists|peer: &COSEKey| #[trigger]
                    call_ensures(B::encapsulate, (peer,), Ok::<ECDHSecret, BackendError>(secret))
                        && peer@ == self@,
                Err(CommandError::Crypto(CryptoError::Backend(e))) => exists|peer: &COSEKey|
                 #[trigger]
                    call_ensures(B::encapsulate, (peer,), Err::<ECDHSecret, BackendError>(e))
                        && peer@ == self@,
                Err(_) => false,
            },
    {
        let agreed = B::encapsulate(&self.0);
        assert(crypto::encapsulates::<B>(self@, agreed));
        match agreed {
            Ok(secret) => {
                assert(exists|peer: &COSEKey| #[trigger]
                    call_ensures(B::encapsulate, (peer,), Ok::<ECDHSecret, BackendError>(secret))
                        && peer@ == self@);
                Ok(secret)
            },
            Err(e) => Err(CommandError::Crypto(CryptoError::Backend(e))),
        }
    }
}

/// Asks for the authenticator's public key.
#[derive(Debug)]
pub struct GetKeyAgreement {
    pin_protocol: u8,
}

/// The request for the authenticator's public key.
pub open spec fn key_agreement_request() -> RequestModel {
    RequestModel {
        pin_protocol: Some(1),
        ..request::bare_request(PINSubcommand::GetKeyAgreement)
    }
}

/// `r` is the public key in an answer with the fields `fields`.
pub open spec fn key_agreement_in(
    fields: response::ResponseModel,
    r: Result<KeyAgreement, CommandError>,
) -> bool {
    match fields.key_agreement {
        Some(key) => r is Ok && r->Ok_0@ == key,
        None => r is Err && lacks_field(r->Err_0, "key_agreement"@),
    }
}

impl GetKeyAgreement {
    #[verifier::type_invariant]
    spec fn protocol_one(self) -> bool {
        self.pin_protocol == 1
    }

    /// The command for an authenticator with the properties `info`.
    pub fn new(info: &AuthenticatorInfo) -> (r: Result<GetKeyAgreement, CommandError>)
        ensures
            r is Ok <==> info.speaks_one(),
            r is Ok <==> exists|i: int|
                0 <= i < info.pin_protocols@.len() && #[trigger] info.pin_protocols@[i] == 1,
            r is Err ==> r->Err_0 is UnsupportedPinProtocol,
    {
        if info.supports_protocol_one() {
            Ok(GetKeyAgreement { pin_protocol: 1 })
        } else {
            Err(CommandError::UnsupportedPinProtocol)
        }
    }

    /// The public key in the answer `response`.
    pub fn output(response: ClientPinResponse) -> (r: Result<KeyAgreement, CommandError>)
        ensures
            key_agreement_in(response@, r),
            match response.key_agreement {
                Some(key) => r is Ok && r->Ok_0@ == key@,
                None => r is Err && r->Err_0 is MissingRequiredField
                    && r->Err_0->MissingRequiredField_0@ == "key_agreement"@,
            },
    {
        match response.key_agreement {
            Some(key_agreement) => Ok(KeyAgreement(key_agreement)),
            None => Err(CommandError::MissingRequiredField("key_agreement")),
        }
    }
}

impl<B: CryptoBackend> ClientPINSubCommand<B> for GetKeyAgreement {
    type Output = KeyAgreement;

    open spec fn client_pin_outcome(
        &self,
        r: Result<ClientPIN, CommandError>,
    ) -> bool {
        requests(r, key_agreement_request())
    }

    open spec fn payload_outcome(
        &self,
        input: Seq<u8>,
        r: Result<KeyAgreement, CommandError>,
    ) -> bool {
        exists|response: Result<ClientPinResponse, CommandError>| #[trigger]
            response_outcome::<B>(input, response) && match response {
                Ok(response) => key_agreement_in(response@, r),
                Err(e) => r == Err::<KeyAgreement, CommandError>(e),
            }
    }

    fn as_client_pin(&self) -> (r: Result<ClientPIN, CommandError>) {
        proof {
            use_type_invariant(self);
        }
        Ok(
            ClientPIN {
                pin_protocol: Some(self.pin_protocol),
                subcommand: PINSubcommand::GetKeyAgreement,
                ..ClientPIN::default()
            },
        )
    }

    fn parse_response_payload(&self, input: &[u8]) -> (r: Result<
        KeyAgreement,
        CommandError,
    >) {
        let response = read_response::<B>(input);
        assert(response_outcome::<B>(input@, response));
        match response {
            Ok(response) => GetKeyAgreement::output(response),
            Err(e) => Err(e),
        }
    }
}

/// Asks for a PIN token, and proves knowledge of the PIN.
pub struct GetPinToken<'sc, 'pin> {
    pin_protocol: u8,
    shared_secret: &'sc ECDHSecret,
    pin: &'pin Pin,
}

/// The request for a PIN token, under the platform's key `public_key`, with the encrypted hash of
/// the PIN.
pub open spec fn pin_token_request(public_key: Seq<u8>, pin_hash_enc: Seq<u8>) -> RequestModel {
    RequestModel {
        pin_protocol: Some(1),
        key_agreement: Some(public_key),
        pin_hash_enc: Some(pin_hash_enc),
        ..request::bare_request(PINSubcommand::GetPINToken)
    }
}

/// `r` is the outcome of a command that ends in decrypting a token: the token, or the failure of
/// the backend.
pub open spec fn token_result(
    decrypted: Result<Vec<u8>, BackendError>,
    r: Result<PinToken, CommandError>,
) -> bool {
    match decrypted {
        Ok(token) => r is Ok && r->Ok_0@ == token@,
        Err(e) => r == Err::<PinToken, CommandError>(backend_failure(e)),
    }
}

/// `r` is an outcome of taking the token out of an answer with the fields `fields`, where
/// `secret` is the shared secret.
pub open spec fn pin_token_in<B: CryptoBackend>(
    secret: Seq<u8>,
    fields: response::ResponseModel,
    r: Result<PinToken, CommandError>,
) -> bool {
    match fields.pin_token {
        Some(token) => exists|decrypted: Result<Vec<u8>, BackendError>| #[trigger]
            crypto::decrypts::<B>(secret, token, decrypted) && token_result(decrypted, r),
        None => r is Err && lacks_field(r->Err_0, "key_agreement"@),
    }
}

impl<'sc, 'pin> GetPinToken<'sc, 'pin> {
    #[verifier::type_invariant]
    spec fn protocol_one(self) -> bool {
        self.pin_protocol == 1
    }

    /// The secret shared with the authenticator.
    pub closed spec fn agreement(&self) -> ECDHSecret {
        *self.shared_secret
    }

    /// The PIN.
    pub closed spec fn known_pin(&self) -> Pin {
        *self.pin
    }

    /// The command for an authenticator with the properties `info`.
    pub fn new(info: &AuthenticatorInfo, shared_secret: &'sc ECDHSecret, pin: &'pin Pin) -> (r:
        Result<GetPinToken<'sc, 'pin>, CommandError>)
        ensures
            r is Ok <==> info.speaks_one(),
            r is Ok <==> exists|i: int|
                0 <= i < info.pin_protocols@.len() && #[trigger] info.pin_protocols@[i] == 1,
            r is Ok ==> r->Ok_0.agreement() == *shared_secret && r->Ok_0.known_pin() == *pin,
            r is Err ==> r->Err_0 is UnsupportedPinProtocol,
    {
        if info.supports_protocol_one() {
            Ok(GetPinToken { pin_protocol: 1, shared_secret, pin })
        } else {
            Err(CommandError::UnsupportedPinProtocol)
        }
    }

    /// The request with `pin_hash_enc` for the encrypted hash of the PIN.
    pub fn request(&self, pin_hash_enc: Vec<u8>) -> (r: ClientPIN)
        ensures
            r@ == pin_token_request(self.agreement().public_key(), pin_hash_enc@),
            r.pin_protocol == Some(1u8),
            r.subcommand == PINSubcommand::GetPINToken,
            r.key_agreement is Some && r.key_agreement->Some_0@ == self.agreement().public_key(),
            r.pin_auth is None,
            r.new_pin_enc is None,
            r.pin_hash_enc is Some && r.pin_hash_enc->Some_0@ == pin_hash_enc@,
    {
        proof {
            use_type_invariant(self);
        }
        ClientPIN {
            pin_protocol: Some(self.pin_protocol),
            subcommand: PINSubcommand::GetPINToken,
            key_agreement: Some(self.shared_secret.my_public_key().clone()),
            pin_hash_enc: Some(pin_hash_enc),
            ..ClientPIN::default()
        }
    }

    /// The encrypted token in the answer `response`.
    pub fn encrypted_token(response: ClientPinResponse) -> (r: Result<
        EncryptedPinToken,
        CommandError,
    >)
        ensures
            match response@.pin_token {
                Some(token) => r is Ok && r->Ok_0@ == token,
                None => r is Err && lacks_field(r->Err_0, "key_agreement"@),
            },
            match response.pin_token {
                Some(token) => r is Ok && r->Ok_0@ == token@,
                None => r is Err && r->Err_0 is MissingRequiredField
                    && r->Err_0->MissingRequiredField_0@ == "key_agreement"@,
            },
    {
        match response.pin_token {
            Some(token) => Ok(token),
            None => Err(CommandError::MissingRequiredField("key_agreement")),
        }
    }

    /// The token, where decrypting it gave `decrypted`.
    pub fn output(decrypted: Result<Vec<u8>, BackendError>) -> (r: Result<PinToken, CommandError>)
        ensures
            token_result(decrypted, r),
            match decrypted {
                Ok(token) => r is Ok && r->Ok_0@ == token@,
                Err(e) => r is Err && r->Err_0 == CommandError::Crypto(CryptoError::Backend(e)),
            },
    {
        match decrypted {
            Ok(token) => Ok(PinToken::new(token)),
            Err(e) => Err(CommandError::Crypto(CryptoError::Backend(e))),
        }
    }
}

impl<'sc, 'pin, B: CryptoBackend> ClientPINSubCommand<B> for GetPinToken<'sc, 'pin> {
    type Output = PinToken;

    open spec fn client_pin_outcome(&self, r: Result<ClientPIN, CommandError>) -> bool {
        exists|pin_hash_enc: Result<Vec<u8>, BackendError>| #[trigger]
            crypto::encrypts::<B>(
                self.agreement().secret(),
                self.known_pin().pin_hash(),
                pin_hash_enc,
            ) && match pin_hash_enc {
                Ok(enc) => requests(r, pin_token_request(self.agreement().public_key(), enc@)),
                Err(e) => r == Err::<ClientPIN, CommandError>(backend_failure(e)),
            }
    }

    open spec fn payload_outcome(
        &self,
        input: Seq<u8>,
        r: Result<PinToken, CommandError>,
    ) -> bool {
        exists|response: Result<ClientPinResponse, CommandError>| #[trigger]
            response_outcome::<B>(input, response) && match response {
                Ok(response) => pin_token_in::<B>(self.agreement().secret(), response@, r),
                Err(e) => r == Err::<PinToken, CommandError>(e),
            }
    }

    fn as_client_pin(&self) -> (r: Result<ClientPIN, CommandError>) {
        let input = self.pin.for_pin_token();
        let secret = self.shared_secret.shared_secret();
        let pin_hash_enc = B::encrypt(secret, input.as_ref());
        assert(crypto::encrypts::<B>(
            self.agreement().secret(),
            self.known_pin().pin_hash(),
            pin_hash_enc,
        ));
        match pin_hash_enc {
            Ok(enc) => Ok(self.request(enc)),
            Err(e) => Err(CommandError::Crypto(CryptoError::Backend(e))),
        }
    }

    fn parse_response_payload(&self, input: &[u8]) -> (r: Result<PinToken, CommandError>) {
        let response = read_response::<B>(input);
        assert(response_outcome::<B>(input@, response));
        let token = match response {
            Ok(response) => match GetPinToken::encrypted_token(response) {
                Ok(token) => token,
                Err(e) => return Err(e),
            },
            Err(e) => return Err(e),
        };
        let secret = self.shared_secret.shared_secret();
        let decrypted = B::decrypt(secret, token.as_ref());
        assert(crypto::decrypts::<B>(secret@, token@, decrypted));
        GetPinToken::output(decrypted)
    }
}

/// Asks for the number of PIN attempts left.
#[derive(Debug)]
pub struct GetRetries {}

/// `r` is the number of attempts in an answer with the fields `fields`.
pub open spec fn retries_in(
    fields: response::ResponseModel,
    r: Result<u8, CommandError>,
) -> bool {
    match fields.retries {
        Some(retries) => r == Ok::<u8, CommandError>(retries),
        None => r is Err && lacks_field(r->Err_0, "retries"@),
    }
}

impl GetRetries {
    /// The command, for any authenticator.
    pub fn new() -> (r: GetRetries)
        ensures
            r == (GetRetries {  }),
    {
        GetRetries {  }
    }

    /// The number of attempts in the answer `response`.
    pub fn output(response: ClientPinResponse) -> (r: Result<u8, CommandError>)
        ensures
            retries_in(response@, r),
            match response.retries {
                Some(retries) => r is Ok && r->Ok_0 == retries,
                None => r is Err && r->Err_0 is MissingRequiredField
                    && r->Err_0->MissingRequiredField_0@ == "retries"@,
            },
    {
        match response.retries {
            Some(retries) => Ok(retries),
            None => Err(CommandError::MissingRequiredField("retries")),
        }
    }
}

impl<B: CryptoBackend> ClientPINSubCommand<B> for GetRetries {
    type Output = u8;

    open spec fn client_pin_outcome(&self, r: Result<ClientPIN, CommandError>) -> bool {
        requests(r, request::bare_request(PINSubcommand::GetRetries))
    }

    open spec fn payload_outcome(&self, input: Seq<u8>, r: Result<u8, CommandError>) -> bool {
        exists|response: Result<ClientPinResponse, CommandError>| #[trigger]
            response_outcome::<B>(input, response) && match response {
                Ok(response) => retries_in(response@, r),
                Err(e) => r == Err::<u8, CommandError>(e),
            }
    }

    fn as_client_pin(&self) -> (r: Result<ClientPIN, CommandError>) {
        Ok(ClientPIN { subcommand: PINSubcommand::GetRetries, ..ClientPIN::default() })
    }

    fn parse_response_payload(&self, input: &[u8]) -> (r: Result<u8, CommandError>) {
        let response = read_response::<B>(input);
        assert(response_outcome::<B>(input@, response));
        match response {
            Ok(response) => GetRetries::output(response),
            Err(e) => Err(e),
        }
    }
}

/// Sets the first PIN of an authenticator.
pub struct SetNewPin<'sc, 'pin> {
    pin_protocol: u8,
    shared_secret: &'sc ECDHSecret,
    new_pin: &'pin Pin,
}

/// The request that sets a first PIN: the platform's key, the encrypted PIN, and the code that
/// authenticates it.
pub open spec fn set_pin_request(
    public_key: Seq<u8>,
    new_pin_enc: Seq<u8>,
    pin_auth: Seq<u8>,
) -> RequestModel {
    RequestModel {
        pin_protocol: Some(1),
        key_agreement: Some(public_key),
        new_pin_enc: Some(new_pin_enc),
        pin_auth: Some(pin_auth),
        ..request::bare_request(PINSubcommand::SetPIN)
    }
}

impl<'sc, 'pin> SetNewPin<'sc, 'pin> {
    #[verifier::type_invariant]
    spec fn protocol_one(self) -> bool {
        self.pin_protocol == 1
    }

    /// The secret shared with the authenticator.
    pub closed spec fn agreement(&self) -> ECDHSecret {
        *self.shared_secret
    }

    /// The PIN to set.
    pub closed spec fn pin_to_set(&self) -> Pin {
        *self.new_pin
    }

    /// The command for an authenticator with the properties `info`.
    pub fn new(info: &AuthenticatorInfo, shared_secret: &'sc ECDHSecret, new_pin: &'pin Pin) -> (r:
        Result<SetNewPin<'sc, 'pin>, CommandError>)
        ensures
            r is Ok <==> info.speaks_one(),
            r is Ok <==> exists|i: int|
                0 <= i < info.pin_protocols@.len() && #[trigger] info.pin_protocols@[i] == 1,
            r is Ok ==> r->Ok_0.agreement() == *shared_secret && r->Ok_0.pin_to_set() == *new_pin,
            r is Err ==> r->Err_0 is UnsupportedPinProtocol,
    {
        if info.supports_protocol_one() {
            Ok(SetNewPin { pin_protocol: 1, shared_secret, new_pin })
        } else {
            Err(CommandError::UnsupportedPinProtocol)
        }
    }

    /// The request with `new_pin_enc` for the encrypted PIN and `pin_auth` for its code.
    pub fn request(&self, new_pin_enc: Vec<u8>, pin_auth: PinAuth) -> (r: ClientPIN)
        ensures
            r@ == set_pin_request(self.agreement().public_key(), new_pin_enc@, pin_auth@),
            r.pin_protocol == Some(1u8),
            r.subcommand == PINSubcommand::SetPIN,
            r.key_agreement is Some && r.key_agreement->Some_0@ == self.agreement().public_key(),
            r.pin_auth is Some && r.pin_auth->Some_0@ == pin_auth@,
            r.new_pin_enc is Some && r.new_pin_enc->Some_0@ == new_pin_enc@,
            r.pin_hash_enc is None,
    {
        proof {
            use_type_invariant(self);
        }
        ClientPIN {
            pin_protocol: Some(self.pin_protocol),
            subcommand: PINSubcommand::SetPIN,
            key_agreement: Some(self.shared_secret.my_public_key().clone()),
            new_pin_enc: Some(new_pin_enc),
            pin_auth: Some(pin_auth),
            ..ClientPIN::default()
        }
    }
}

impl<'sc, 'pin, B: CryptoBackend> ClientPINSubCommand<B> for SetNewPin<'sc, 'pin> {
    type Output = ();

    open spec fn client_pin_outcome(&self, r: Result<ClientPIN, CommandError>) -> bool {
        let secret = self.agreement().secret();
        let new_pin = self.pin_to_set().bytes();
        if new_pin.len() > 63 {
            r == Err::<ClientPIN, CommandError>(policy_violation())
        } else {
            exists|new_pin_enc: Result<Vec<u8>, BackendError>| #[trigger]
                crypto::encrypts::<B>(secret, pin::pin_block(new_pin), new_pin_enc)
                    && match new_pin_enc {
                    Ok(enc) => exists|pin_auth: Result<PinAuth, CryptoError>| #[trigger]
                        pin::auth_outcome::<B>(secret, enc@, pin_auth) && match pin_auth {
                            Ok(auth) => requests(
                                r,
                                set_pin_request(self.agreement().public_key(), enc@, auth@),
                            ),
                            Err(e) => r == Err::<ClientPIN, CommandError>(CommandError::Crypto(e)),
                        },
                    Err(e) => r == Err::<ClientPIN, CommandError>(backend_failure(e)),
                }
        }
    }

    open spec fn payload_outcome(&self, input: Seq<u8>, r: Result<(), CommandError>) -> bool {
        ignored_outcome(input, r)
    }

    fn as_client_pin(&self) -> (r: Result<ClientPIN, CommandError>) {
        let input = match self.new_pin.block() {
            Some(block) => block,
            None => return Err(CommandError::StatusCode(StatusCode::PinPolicyViolation, None)),
        };
        let secret = self.shared_secret.shared_secret();
        // AES256-CBC(sharedSecret, IV=0, newPin)
        let new_pin_enc = B::encrypt(secret, input.as_slice());
        assert(crypto::encrypts::<B>(
            self.agreement().secret(),
            pin::pin_block(self.pin_to_set().bytes()),
            new_pin_enc,
        ));
        let enc = match new_pin_enc {
            Ok(enc) => enc,
            Err(e) => return Err(CommandError::Crypto(CryptoError::Backend(e))),
        };
        // LEFT(HMAC-SHA-256(sharedSecret, newPinEnc), 16)
        match PinToken::new(slice_to_vec(secret)).auth::<B>(enc.as_slice()) {
            Ok(auth) => Ok(self.request(enc, auth)),
            Err(e) => Err(CommandError::Crypto(e)),
        }
    }

    fn parse_response_payload(&self, input: &[u8]) -> (r: Result<(), CommandError>) {
        ignore_payload(input)
    }
}

/// Replaces the PIN of an authenticator by another.
pub struct ChangeExistingPin<'sc, 'pin> {
    pin_protocol: u8,
    shared_secret: &'sc ECDHSecret,
    current_pin: &'pin Pin,
    new_pin: &'pin Pin,
}

/// The request that changes the PIN: the platform's key, the encrypted new PIN, the encrypted hash
/// of the current one, and the code that authenticates both.
pub open spec fn change_pin_request(
    public_key: Seq<u8>,
    new_pin_enc: Seq<u8>,
    pin_hash_enc: Seq<u8>,
    pin_auth: Seq<u8>,
) -> RequestModel {
    RequestModel {
        pin_protocol: Some(1),
        subcommand: PINSubcommand::ChangePIN,
        key_agreement: Some(public_key),
        new_pin_enc: Some(new_pin_enc),
        pin_hash_enc: Some(pin_hash_enc),
        pin_auth: Some(pin_auth),
    }
}

impl<'sc, 'pin> ChangeExistingPin<'sc, 'pin> {
    #[verifier::type_invariant]
    spec fn protocol_one(self) -> bool {
        self.pin_protocol == 1
    }

    /// The secret shared with the authenticator.
    pub closed spec fn agreement(&self) -> ECDHSecret {
        *self.shared_secret
    }

    /// The PIN that the authenticator has.
    pub closed spec fn known_pin(&self) -> Pin {
        *self.current_pin
    }

    /// The PIN to set.
    pub closed spec fn pin_to_set(&self) -> Pin {
        *self.new_pin
    }

    /// The command for an authenticator with the properties `info`.
    pub fn new(
        info: &AuthenticatorInfo,
        shared_secret: &'sc ECDHSecret,
        current_pin: &'pin Pin,
        new_pin: &'pin Pin,
    ) -> (r: Result<ChangeExistingPin<'sc, 'pin>, CommandError>)
        ensures
            r is Ok <==> info.speaks_one(),
            r is Ok <==> exists|i: int|
                0 <= i < info.pin_protocols@.len() && #[trigger] info.pin_protocols@[i] == 1,
            r is Ok ==> r->Ok_0.agreement() == *shared_secret && r->Ok_0.known_pin() == *current_pin
                && r->Ok_0.pin_to_set() == *new_pin,
            r is Err ==> r->Err_0 is UnsupportedPinProtocol,
    {
        if info.supports_protocol_one() {
            Ok(ChangeExistingPin { pin_protocol: 1, shared_secret, current_pin, new_pin })
        } else {
            Err(CommandError::UnsupportedPinProtocol)
        }
    }

    /// What the code of the request authenticates: the encrypted new PIN, then the encrypted hash
    /// of the current one.
    pub fn authenticated(new_pin_enc: &[u8], pin_hash_enc: &[u8]) -> (r: Vec<u8>)
        ensures
            r@ == new_pin_enc@ + pin_hash_enc@,
    {
        let mut both: Vec<u8> = slice_to_vec(new_pin_enc);
        both.extend_from_slice(pin_hash_enc);
        assert(both@ =~= new_pin_enc@ + pin_hash_enc@);
        both
    }

    /// The request with `new_pin_enc` for the encrypted new PIN, `pin_hash_enc` for the encrypted
    /// hash of the current one, and `pin_auth` for the code of both.
    pub fn request(&self, new_pin_enc: Vec<u8>, pin_hash_enc: Vec<u8>, pin_auth: PinAuth) -> (r:
        ClientPIN)
        ensures
            r@ == change_pin_request(
                self.agreement().public_key(),
                new_pin_enc@,
                pin_hash_enc@,
                pin_auth@,
            ),
            r.pin_protocol == Some(1u8),
            r.subcommand == PINSubcommand::ChangePIN,
            r.key_agreement is Some && r.key_agreement->Some_0@ == self.agreement().public_key(),
            r.pin_auth is Some && r.pin_auth->Some_0@ == pin_auth@,
            r.new_pin_enc is Some && r.new_pin_enc->Some_0@ == new_pin_enc@,
            r.pin_hash_enc is Some && r.pin_hash_enc->Some_0@ == pin_hash_enc@,
    {
        proof {
            use_type_invariant(self);
        }
        ClientPIN {
            pin_protocol: Some(self.pin_protocol),
            subcommand: PINSubcommand::ChangePIN,
            key_agreement: Some(self.shared_secret.my_public_key().clone()),
            new_pin_enc: Some(new_pin_enc),
            pin_hash_enc: Some(pin_hash_enc),
            pin_auth: Some(pin_auth),
        }
    }
}

impl<'sc, 'pin, B: CryptoBackend> ClientPINSubCommand<B> for ChangeExistingPin<'sc, 'pin> {
    type Output = ();

    open spec fn client_pin_outcome(&self, r: Result<ClientPIN, CommandError>) -> bool {
        let secret = self.agreement().secret();
        let new_pin = self.pin_to_set().bytes();
        if new_pin.len() > 63 {
            r == Err::<ClientPIN, CommandError>(policy_violation())
        } else {
            exists|new_pin_enc: Result<Vec<u8>, BackendError>| #[trigger]
                crypto::encrypts::<B>(secret, pin::pin_block(new_pin), new_pin_enc)
                    && match new_pin_enc {
                    Ok(enc) => self.hash_outcome::<B>(enc@, r),
                    Err(e) => r == Err::<ClientPIN, CommandError>(backend_failure(e)),
                }
        }
    }

    open spec fn payload_outcome(&self, input: Seq<u8>, r: Result<(), CommandError>) -> bool {
        ignored_outcome(input, r)
    }

    fn as_client_pin(&self) -> (r: Result<ClientPIN, CommandError>) {
        let input = match self.new_pin.block() {
            Some(block) => block,
            None => return Err(CommandError::StatusCode(StatusCode::PinPolicyViolation, None)),
        };
        let secret = self.shared_secret.shared_secret();
        // AES256-CBC(sharedSecret, IV=0, newPin)
        let new_pin_enc = B::encrypt(secret, input.as_slice());
        assert(crypto::encrypts::<B>(
            self.agreement().secret(),
            pin::pin_block(self.pin_to_set().bytes()),
            new_pin_enc,
        ));
        let new_enc = match new_pin_enc {
            Ok(enc) => enc,
            Err(e) => return Err(CommandError::Crypto(CryptoError::Backend(e))),
        };
        // AES256-CBC(sharedSecret, IV=0, LEFT(SHA-256(oldPin), 16))
        let input = self.current_pin.for_pin_token();
        let pin_hash_enc = B::encrypt(secret, input.as_ref());
        assert(crypto::encrypts::<B>(
            self.agreement().secret(),
            self.known_pin().pin_hash(),
            pin_hash_enc,
        ));
        let hash_enc = match pin_hash_enc {
            Ok(enc) => enc,
            Err(e) => return Err(CommandError::Crypto(CryptoError::Backend(e))),
        };
        // LEFT(HMAC-SHA-256(sharedSecret, newPinEnc || pinHashEnc), 16)
        let both = ChangeExistingPin::authenticated(new_enc.as_slice(), hash_enc.as_slice());
        match PinToken::new(slice_to_vec(secret)).auth::<B>(both.as_slice()) {
            Ok(auth) => Ok(self.request(new_enc, hash_enc, auth)),
            Err(e) => Err(CommandError::Crypto(e)),
        }
    }

    fn parse_response_payload(&self, input: &[u8]) -> (r: Result<(), CommandError>) {
        ignore_payload(input)
    }
}

impl<'sc, 'pin> ChangeExistingPin<'sc, 'pin> {
    /// `r` is an outcome of making the request once the new PIN is encrypted to `new_pin_enc`.
    pub open spec fn hash_outcome<B: CryptoBackend>(
        &self,
        new_pin_enc: Seq<u8>,
        r: Result<ClientPIN, CommandError>,
    ) -> bool {
        let secret = self.agreement().secret();
        exists|pin_hash_enc: Result<Vec<u8>, BackendError>| #[trigger]
            crypto::encrypts::<B>(secret, self.known_pin().pin_hash(), pin_hash_enc)
                && match pin_hash_enc {
                Ok(enc) => exists|pin_auth: Result<PinAuth, CryptoError>| #[trigger]
                    pin::auth_outcome::<B>(secret, new_pin_enc + enc@, pin_auth) && match pin_auth {
                        Ok(auth) => requests(
                            r,
                            change_pin_request(
                                self.agreement().public_key(),
                                new_pin_enc,
                                enc@,
                                auth@,
                            ),
                        ),
                        Err(e) => r == Err::<ClientPIN, CommandError>(CommandError::Crypto(e)),
                    },
                Err(e) => r == Err::<ClientPIN, CommandError>(backend_failure(e)),
            }
    }
}

} // verus!
