//! Laws of the commands: what they send, what they refuse, and what they make of an answer.

use vstd::prelude::*;

use crate::cbor;
use crate::commands::{self, ChangeExistingPin, ClientPINSubCommand};
use crate::commands::{GetKeyAgreement, GetPinToken, GetRetries, KeyAgreement, SetNewPin};
use crate::crypto::{self, BackendError, COSEKey, CryptoBackend, CryptoError};
use crate::errors::{self, CommandError, HIDError, StatusCode};
use crate::laws::answers::AnswerForm;
use crate::laws::{answers, values};
use crate::pin::{self, PinAuth, PinToken};
use crate::request::{self, ClientPIN, PINSubcommand};
use crate::response::{ClientPinResponse, ResponseModel};
use crate::wire;

verus! {

/// The block of a PIN that can be set has 64 bytes, starts with the PIN, and ends with a zero.
pub proof fn law_block_holds_the_pin(p: Seq<u8>)
    requires
        p.len() <= 63,
    ensures
        pin::pin_block(p).len() == 64,
        pin::pin_block(p).take(p.len() as int) == p,
        pin::pin_block(p).last() == 0,
{
    assert(pin::pin_block(p).take(p.len() as int) =~= p);
}

/// The authenticator finds the PIN by cutting the trailing zeros off its block: two PINs that do
/// not themselves end in a zero never share a block.
pub proof fn law_block_tells_the_pin(p: Seq<u8>, q: Seq<u8>)
    requires
        p.len() <= 63,
        q.len() <= 63,
        p.len() > 0 ==> p.last() != 0,
        q.len() > 0 ==> q.last() != 0,
        pin::pin_block(p) == pin::pin_block(q),
    ensures
        p == q,
{
    let b = pin::pin_block(p);
    let c = pin::pin_block(q);
    if p.len() < q.len() {
        assert(b[q.len() - 1] == 0);
        assert(c[q.len() - 1] == q.last());
    }
    if q.len() < p.len() {
        assert(c[p.len() - 1] == 0);
        assert(b[p.len() - 1] == p.last());
    }
    law_block_holds_the_pin(p);
    law_block_holds_the_pin(q);
}

/// A zero byte behind a PIN does not show in its block: the padding is of zeros, and nothing says
/// where it starts.
pub proof fn law_zeros_are_padding(p: Seq<u8>)
    requires
        p.len() < 63,
    ensures
        pin::pin_block(p) == pin::pin_block(p.push(0)),
{
    assert(pin::pin_block(p) =~= pin::pin_block(p.push(0)));
}

/// A PIN of more than 63 bytes is never set, and no backend is asked anything: the command fails in
/// the same way with any of them.
pub proof fn law_long_pin_is_not_set<'sc, 'pin, B: CryptoBackend>(
    command: SetNewPin<'sc, 'pin>,
    r: Result<Vec<u8>, HIDError>,
)
    requires
        command.pin_to_set().bytes().len() > 63,
        wire::wire_outcome::<B, SetNewPin>(command, r),
    ensures
        r == Err::<Vec<u8>, HIDError>(HIDError::Command(commands::policy_violation())),
{
}

/// As `law_long_pin_is_not_set`, for a PIN that is to replace another.
pub proof fn law_long_pin_is_not_changed_to<'sc, 'pin, B: CryptoBackend>(
    command: ChangeExistingPin<'sc, 'pin>,
    r: Result<Vec<u8>, HIDError>,
)
    requires
        command.pin_to_set().bytes().len() > 63,
        wire::wire_outcome::<B, ChangeExistingPin>(command, r),
    ensures
        r == Err::<Vec<u8>, HIDError>(HIDError::Command(commands::policy_violation())),
{
}

/// A PIN of up to 63 bytes is set unless the backend fails.
pub proof fn law_short_pin_is_set<'sc, 'pin, B: CryptoBackend>(
    command: SetNewPin<'sc, 'pin>,
    r: Result<Vec<u8>, HIDError>,
)
    requires
        command.pin_to_set().bytes().len() <= 63,
        wire::wire_outcome::<B, SetNewPin>(command, r),
    ensures
        r is Err ==> r->Err_0->Command_0 is Crypto,
{
}

/// As `law_short_pin_is_set`, for a PIN that is to replace another.
pub proof fn law_short_pin_is_changed_to<'sc, 'pin, B: CryptoBackend>(
    command: ChangeExistingPin<'sc, 'pin>,
    r: Result<Vec<u8>, HIDError>,
)
    requires
        command.pin_to_set().bytes().len() <= 63,
        wire::wire_outcome::<B, ChangeExistingPin>(command, r),
    ensures
        r is Err ==> r->Err_0->Command_0 is Crypto,
{
}

/// The code in a request that sets a PIN authenticates the encrypted PIN in the same request, under
/// the shared secret, and has 16 bytes.
pub proof fn law_set_pin_is_authenticated<'sc, 'pin, B: CryptoBackend>(
    command: SetNewPin<'sc, 'pin>,
    r: Result<ClientPIN, CommandError>,
)
    requires
        ClientPINSubCommand::<B>::client_pin_outcome(&command, r),
        r is Ok,
    ensures
        r->Ok_0@.new_pin_enc is Some,
        r->Ok_0@.pin_auth is Some,
        r->Ok_0@.pin_auth->Some_0.len() == 16,
        exists|code: [u8; 32]| #[trigger]
            crypto::authenticates::<B>(
                command.agreement().secret(),
                r->Ok_0@.new_pin_enc->Some_0,
                Ok(code),
            ) && r->Ok_0@.pin_auth->Some_0 == pin::left16(code@),
{
    let secret = command.agreement().secret();
    let enc = r->Ok_0@.new_pin_enc->Some_0;
    let auth = choose|auth: Result<PinAuth, CryptoError>| #[trigger]
        pin::auth_outcome::<B>(secret, enc, auth) && auth is Ok && auth->Ok_0@
            == r->Ok_0@.pin_auth->Some_0;
    let mac = choose|mac: Result<[u8; 32], BackendError>| #[trigger]
        crypto::authenticates::<B>(secret, enc, mac) && mac is Ok && auth->Ok_0@ == pin::left16(
            mac->Ok_0@,
        );
    assert(crypto::authenticates::<B>(secret, enc, Ok(mac->Ok_0)));
}

/// The code in a request that changes the PIN authenticates the encrypted new PIN and, behind it,
/// the encrypted hash of the current one, both as they stand in the same request, under the shared
/// secret; it has 16 bytes.
pub proof fn law_change_pin_is_authenticated<'sc, 'pin, B: CryptoBackend>(
    command: ChangeExistingPin<'sc, 'pin>,
    r: Result<ClientPIN, CommandError>,
)
    requires
        ClientPINSubCommand::<B>::client_pin_outcome(&command, r),
        r is Ok,
    ensures
        r->Ok_0@.new_pin_enc is Some,
        r->Ok_0@.pin_hash_enc is Some,
        r->Ok_0@.pin_auth is Some,
        r->Ok_0@.pin_auth->Some_0.len() == 16,
        exists|code: [u8; 32]| #[trigger]
            crypto::authenticates::<B>(
                command.agreement().secret(),
                r->Ok_0@.new_pin_enc->Some_0 + r->Ok_0@.pin_hash_enc->Some_0,
                Ok(code),
            ) && r->Ok_0@.pin_auth->Some_0 == pin::left16(code@),
{
    let secret = command.agreement().secret();
    let both = r->Ok_0@.new_pin_enc->Some_0 + r->Ok_0@.pin_hash_enc->Some_0;
    let auth = choose|auth: Result<PinAuth, CryptoError>| #[trigger]
        pin::auth_outcome::<B>(secret, both, auth) && auth is Ok && auth->Ok_0@
            == r->Ok_0@.pin_auth->Some_0;
    let mac = choose|mac: Result<[u8; 32], BackendError>| #[trigger]
        crypto::authenticates::<B>(secret, both, mac) && mac is Ok && auth->Ok_0@ == pin::left16(
            mac->Ok_0@,
        );
    assert(crypto::authenticates::<B>(secret, both, Ok(mac->Ok_0)));
}

/// `enc` is what the backend `B` made of `data` under `key`.
pub open spec fn is_encryption<B: CryptoBackend>(
    key: Seq<u8>,
    data: Seq<u8>,
    enc: Option<Seq<u8>>,
) -> bool {
    exists|c: Vec<u8>| #[trigger] crypto::encrypts::<B>(key, data, Ok(c)) && enc == Some(c@)
}

/// A request for a token carries the hash of the PIN, encrypted under the shared secret, together
/// with the key by which the authenticator arrives at that secret.
pub proof fn law_get_pin_token_carries_the_hash<'sc, 'pin, B: CryptoBackend>(
    command: GetPinToken<'sc, 'pin>,
    r: Result<ClientPIN, CommandError>,
)
    requires
        ClientPINSubCommand::<B>::client_pin_outcome(&command, r),
        r is Ok,
    ensures
        r->Ok_0@.key_agreement == Some(command.agreement().public_key()),
        is_encryption::<B>(
            command.agreement().secret(),
            command.known_pin().pin_hash(),
            r->Ok_0@.pin_hash_enc,
        ),
{
    let enc = choose|enc: Result<Vec<u8>, BackendError>| #[trigger]
        crypto::encrypts::<B>(
            command.agreement().secret(),
            command.known_pin().pin_hash(),
            enc,
        ) && enc is Ok && r->Ok_0@.pin_hash_enc == Some(enc->Ok_0@);
    assert(crypto::encrypts::<B>(
        command.agreement().secret(),
        command.known_pin().pin_hash(),
        Ok(enc->Ok_0),
    ));
}

/// A request that sets a PIN carries the block of that PIN, encrypted under the shared secret,
/// together with the key by which the authenticator arrives at that secret.
pub proof fn law_set_pin_carries_the_pin<'sc, 'pin, B: CryptoBackend>(
    command: SetNewPin<'sc, 'pin>,
    r: Result<ClientPIN, CommandError>,
)
    requires
        ClientPINSubCommand::<B>::client_pin_outcome(&command, r),
        r is Ok,
    ensures
        command.pin_to_set().bytes().len() <= 63,
        r->Ok_0@.key_agreement == Some(command.agreement().public_key()),
        is_encryption::<B>(
            command.agreement().secret(),
            pin::pin_block(command.pin_to_set().bytes()),
            r->Ok_0@.new_pin_enc,
        ),
{
    let secret = command.agreement().secret();
    let block = pin::pin_block(command.pin_to_set().bytes());
    let enc = choose|enc: Result<Vec<u8>, BackendError>| #[trigger]
        crypto::encrypts::<B>(secret, block, enc) && enc is Ok && r->Ok_0@.new_pin_enc == Some(
            enc->Ok_0@,
        );
    assert(crypto::encrypts::<B>(secret, block, Ok(enc->Ok_0)));
}

/// A request that changes the PIN carries the block of the new PIN and the hash of the current one,
/// both encrypted under the shared secret, together with the key by which the authenticator arrives
/// at that secret.
pub proof fn law_change_pin_carries_both<'sc, 'pin, B: CryptoBackend>(
    command: ChangeExistingPin<'sc, 'pin>,
    r: Result<ClientPIN, CommandError>,
)
    requires
        ClientPINSubCommand::<B>::client_pin_outcome(&command, r),
        r is Ok,
    ensures
        command.pin_to_set().bytes().len() <= 63,
        r->Ok_0@.key_agreement == Some(command.agreement().public_key()),
        is_encryption::<B>(
            command.agreement().secret(),
            pin::pin_block(command.pin_to_set().bytes()),
            r->Ok_0@.new_pin_enc,
        ),
        is_encryption::<B>(
            command.agreement().secret(),
            command.known_pin().pin_hash(),
            r->Ok_0@.pin_hash_enc,
        ),
{
    let secret = command.agreement().secret();
    let block = pin::pin_block(command.pin_to_set().bytes());
    let hash = command.known_pin().pin_hash();
    let enc = choose|enc: Result<Vec<u8>, BackendError>| #[trigger]
        crypto::encrypts::<B>(secret, block, enc) && enc is Ok && command.hash_outcome::<B>(
            enc->Ok_0@,
            r,
        );
    assert(crypto::encrypts::<B>(secret, block, Ok(enc->Ok_0)));
    let hash_enc = choose|hash_enc: Result<Vec<u8>, BackendError>| #[trigger]
        crypto::encrypts::<B>(secret, hash, hash_enc) && hash_enc is Ok && r->Ok_0@.pin_hash_enc
            == Some(hash_enc->Ok_0@);
    assert(crypto::encrypts::<B>(secret, hash, Ok(hash_enc->Ok_0)));
}

/// The backend `B` always encrypts the same data under the same key to the same bytes.
pub open spec fn encrypts_alike<B: CryptoBackend>() -> bool {
    forall|key: Seq<u8>, data: Seq<u8>, a: Vec<u8>, b: Vec<u8>| #[trigger]
        crypto::encrypts::<B>(key, data, Ok(a)) && #[trigger] crypto::encrypts::<B>(
            key,
            data,
            Ok(b),
        ) ==> a@ == b@
}

/// The backend `B` always gives the same code for the same data under the same key.
pub open spec fn authenticates_alike<B: CryptoBackend>() -> bool {
    forall|key: Seq<u8>, data: Seq<u8>, a: [u8; 32], b: [u8; 32]| #[trigger]
        crypto::authenticates::<B>(key, data, Ok(a)) && #[trigger] crypto::authenticates::<B>(
            key,
            data,
            Ok(b),
        ) ==> a@ == b@
}

/// With a backend that encrypts alike, a request that changes the PIN sends the new PIN as a request
/// that sets it would, and the hash of the current one as a request for a token would, under the same
/// key and protocol as both.
pub proof fn law_change_pin_sends_what_others_send<'sc, 'pin, B: CryptoBackend>(
    set: SetNewPin<'sc, 'pin>,
    token: GetPinToken<'sc, 'pin>,
    change: ChangeExistingPin<'sc, 'pin>,
    a: Result<ClientPIN, CommandError>,
    b: Result<ClientPIN, CommandError>,
    c: Result<ClientPIN, CommandError>,
)
    requires
        encrypts_alike::<B>(),
        set.agreement() == change.agreement(),
        token.agreement() == change.agreement(),
        set.pin_to_set()@ == change.pin_to_set()@,
        token.known_pin()@ == change.known_pin()@,
        ClientPINSubCommand::<B>::client_pin_outcome(&set, a),
        ClientPINSubCommand::<B>::client_pin_outcome(&token, b),
        ClientPINSubCommand::<B>::client_pin_outcome(&change, c),
        a is Ok,
        b is Ok,
        c is Ok,
    ensures
        c->Ok_0@.new_pin_enc == a->Ok_0@.new_pin_enc,
        c->Ok_0@.pin_hash_enc == b->Ok_0@.pin_hash_enc,
        c->Ok_0@.key_agreement == a->Ok_0@.key_agreement,
        c->Ok_0@.key_agreement == b->Ok_0@.key_agreement,
        c->Ok_0@.pin_protocol == a->Ok_0@.pin_protocol,
        c->Ok_0@.pin_protocol == b->Ok_0@.pin_protocol,
{
    law_set_pin_carries_the_pin::<B>(set, a);
    law_get_pin_token_carries_the_hash::<B>(token, b);
    law_change_pin_carries_both::<B>(change, c);
}

/// With a backend that encrypts and authenticates alike, a PIN and the same PIN with a zero byte
/// behind it are set by the same encrypted PIN and the same code.
pub proof fn law_set_pin_does_not_tell_zeros<'sc, 'pin, B: CryptoBackend>(
    p: SetNewPin<'sc, 'pin>,
    q: SetNewPin<'sc, 'pin>,
    a: Result<ClientPIN, CommandError>,
    b: Result<ClientPIN, CommandError>,
)
    requires
        encrypts_alike::<B>(),
        authenticates_alike::<B>(),
        p.agreement() == q.agreement(),
        p.pin_to_set().bytes().len() < 63,
        q.pin_to_set().bytes() == p.pin_to_set().bytes().push(0),
        ClientPINSubCommand::<B>::client_pin_outcome(&p, a),
        ClientPINSubCommand::<B>::client_pin_outcome(&q, b),
        a is Ok,
        b is Ok,
    ensures
        a->Ok_0@.new_pin_enc == b->Ok_0@.new_pin_enc,
        a->Ok_0@.pin_auth == b->Ok_0@.pin_auth,
{
    law_zeros_are_padding(p.pin_to_set().bytes());
    law_set_pin_carries_the_pin::<B>(p, a);
    law_set_pin_carries_the_pin::<B>(q, b);
    law_set_pin_is_authenticated::<B>(p, a);
    law_set_pin_is_authenticated::<B>(q, b);
}

/// What a request for the retries looks like on the wire, with any backend.
pub proof fn law_get_retries_on_the_wire<B: CryptoBackend>(
    command: GetRetries,
    r: Result<Vec<u8>, HIDError>,
)
    requires
        wire::wire_outcome::<B, GetRetries>(command, r),
    ensures
        r is Ok,
        r->Ok_0@ == seq![0xa1u8, 0x02, 0x01],
{
    request::lemma_request_flat(request::bare_request(PINSubcommand::GetRetries));
    assert(r->Ok_0@ =~= seq![0xa1u8, 0x02, 0x01]);
}

/// What a request for the authenticator's key looks like on the wire, with any backend.
pub proof fn law_get_key_agreement_on_the_wire<B: CryptoBackend>(
    command: GetKeyAgreement,
    r: Result<Vec<u8>, HIDError>,
)
    requires
        wire::wire_outcome::<B, GetKeyAgreement>(command, r),
    ensures
        r is Ok,
        r->Ok_0@ == seq![0xa2u8, 0x01, 0x01, 0x02, 0x02],
{
    request::lemma_request_flat(commands::key_agreement_request());
    assert(r->Ok_0@ =~= seq![0xa2u8, 0x01, 0x01, 0x02, 0x02]);
}

/// No two status bytes are taken for the same status.
pub proof fn law_statuses_are_told_apart(a: u8, b: u8)
    requires
        errors::status_of(a) == errors::status_of(b),
    ensures
        a == b,
{
}

/// An answer that does not start with the status of success is never a success, whatever the
/// command and whatever follows the status: it fails with that status, or because what follows is
/// no CBOR value.
pub proof fn law_refusals_are_failures<B: CryptoBackend, T: ClientPINSubCommand<B>>(
    command: T,
    input: Seq<u8>,
    r: Result<T::Output, HIDError>,
)
    requires
        input.len() > 0,
        errors::status_of(input[0]) != StatusCode::OK,
        wire::answer_outcome::<B, T>(command, input, r),
    ensures
        r is Err,
        input.len() == 1 || cbor::is_cbor_value(input.skip(1)) ==> r->Err_0->Command_0 is StatusCode
            && r->Err_0->Command_0->StatusCode_0 == errors::status_of(input[0]),
        input.len() > 1 && !cbor::is_cbor_value(input.skip(1)) ==> commands::not_a_value(
            r->Err_0->Command_0,
        ),
{
}

/// An empty answer is too small for any command.
pub proof fn law_empty_answers_are_failures<B: CryptoBackend, T: ClientPINSubCommand<B>>(
    command: T,
    r: Result<T::Output, HIDError>,
)
    requires
        wire::answer_outcome::<B, T>(command, Seq::empty(), r),
    ensures
        r is Err,
        r->Err_0->Command_0 is InputTooSmall,
{
}

/// The answer of an authenticator that carried out a command and sends the fields of `m`.
pub open spec fn success(m: ResponseModel, form: AnswerForm) -> Seq<u8> {
    seq![0x00u8] + answers::answer_encoding(m, form)
}

/// `m` can be sent: it is one CBOR value to `serde_cbor`, its token is no longer than a CBOR head
/// can say, and its key is one to the backend `B`.
pub open spec fn can_be_sent<B: CryptoBackend>(m: ResponseModel, form: AnswerForm) -> bool {
    &&& cbor::is_cbor_value(answers::answer_encoding(m, form))
    &&& m.pin_token is Some ==> m.pin_token->Some_0.len() <= u64::MAX
    &&& answers::key_is_read::<B>(m)
}

/// `m` is made of plain values: its token is no longer than a CBOR head can say, and its key, if
/// there is one, is a plain value that the backend `B` reads as the key that it is.
pub open spec fn is_plain_answer<B: CryptoBackend>(m: ResponseModel) -> bool {
    &&& m.pin_token is Some ==> m.pin_token->Some_0.len() <= u64::MAX
    &&& m.key_agreement is Some ==> {
        let key = m.key_agreement->Some_0;
        &&& values::is_plain(key, 126)
        &&& !cbor::is_null(key)
        &&& forall|k: Result<COSEKey, serde_cbor::Error>| #[trigger]
            crypto::parses_key::<B>(key, k) ==> k is Ok && k->Ok_0@ == key
    }
}

/// Every answer that is made of plain values can be sent with its entries counted, with or without
/// nulls for what is not there.
pub proof fn law_plain_answers_can_be_sent<B: CryptoBackend>(m: ResponseModel, form: AnswerForm)
    requires
        is_plain_answer::<B>(m),
        !form.streamed,
    ensures
        can_be_sent::<B>(m, form),
{
    values::lemma_null_is_plain(126);
    if m.key_agreement is Some {
        answers::law_plain_values_can_be_keys(m.key_agreement->Some_0);
    }
    if m.pin_token is Some {
        values::lemma_scalars_are_plain(0, m.pin_token->Some_0, 126);
    }
    if m.retries is Some {
        values::lemma_scalars_are_plain(m.retries->Some_0, Seq::empty(), 126);
    }
    values::law_plain_maps_are_values(answers::answer_entries(m, form));
}

/// Behind the status of a success stands what was sent.
proof fn lemma_payload_of_success(m: ResponseModel, form: AnswerForm)
    ensures
        success(m, form).len() > 0,
        errors::status_of(success(m, form)[0]) == StatusCode::OK,
        success(m, form).skip(1) == answers::answer_encoding(m, form),
{
    assert(success(m, form).skip(1) =~= answers::answer_encoding(m, form));
}

/// The fields of an answer that was sent are those that are read.
proof fn lemma_fields_of_success<B: CryptoBackend>(m: ResponseModel, form: AnswerForm)
    requires
        can_be_sent::<B>(m, form),
    ensures
        forall|response: Result<ClientPinResponse, CommandError>| #[trigger]
            commands::response_outcome::<B>(answers::answer_encoding(m, form), response) ==> response is Ok
                && response->Ok_0@ == m,
{
    assert forall|response: Result<ClientPinResponse, CommandError>| #[trigger]
        commands::response_outcome::<B>(answers::answer_encoding(m, form), response) implies response is Ok
        && response->Ok_0@ == m by {
        match response {
            Ok(fields) => {
                answers::law_answers_read_back::<B>(m, form, Ok(fields));
            },
            Err(CommandError::Deserializing(e)) => {
                answers::law_answers_read_back::<B>(m, form, Err(e));
            },
            Err(_) => {},
        }
    }
}

/// The number of retries that the authenticator sends is the one that the platform gets; without
/// one the field is reported missing.
pub proof fn law_retries_arrive<B: CryptoBackend>(
    command: GetRetries,
    m: ResponseModel,
    form: AnswerForm,
    r: Result<u8, HIDError>,
)
    requires
        can_be_sent::<B>(m, form),
        wire::answer_outcome::<B, GetRetries>(command, success(m, form), r),
    ensures
        match m.retries {
            Some(retries) => r == Ok::<u8, HIDError>(retries),
            None => r is Err && commands::lacks_field(r->Err_0->Command_0, "retries"@),
        },
{
    lemma_payload_of_success(m, form);
    lemma_fields_of_success::<B>(m, form);
}

/// The key that the authenticator sends is the one that the platform gets; without one the field is
/// reported missing.
pub proof fn law_key_agreement_arrives<B: CryptoBackend>(
    command: GetKeyAgreement,
    m: ResponseModel,
    form: AnswerForm,
    r: Result<KeyAgreement, HIDError>,
)
    requires
        can_be_sent::<B>(m, form),
        wire::answer_outcome::<B, GetKeyAgreement>(command, success(m, form), r),
    ensures
        match m.key_agreement {
            Some(key) => r is Ok && r->Ok_0@ == key,
            None => r is Err && commands::lacks_field(r->Err_0->Command_0, "key_agreement"@),
        },
{
    lemma_payload_of_success(m, form);
    lemma_fields_of_success::<B>(m, form);
}

/// The token that the authenticator encrypts under the shared secret and sends is the one that the
/// platform gets, if the backend decrypts it to what it was.
pub proof fn law_pin_token_arrives<'sc, 'pin, B: CryptoBackend>(
    command: GetPinToken<'sc, 'pin>,
    token: Seq<u8>,
    m: ResponseModel,
    form: AnswerForm,
    r: Result<PinToken, HIDError>,
)
    requires
        can_be_sent::<B>(m, form),
        m.pin_token is Some,
        forall|decrypted: Result<Vec<u8>, BackendError>| #[trigger]
            crypto::decrypts::<B>(
                command.agreement().secret(),
                m.pin_token->Some_0,
                decrypted,
            ) ==> decrypted is Ok && decrypted->Ok_0@ == token,
        wire::answer_outcome::<B, GetPinToken>(command, success(m, form), r),
    ensures
        r is Ok,
        r->Ok_0@ == token,
{
    lemma_payload_of_success(m, form);
    lemma_fields_of_success::<B>(m, form);
}

/// An answer without a token is reported as one with a missing field.
pub proof fn law_missing_token_is_reported<'sc, 'pin, B: CryptoBackend>(
    command: GetPinToken<'sc, 'pin>,
    m: ResponseModel,
    form: AnswerForm,
    r: Result<PinToken, HIDError>,
)
    requires
        can_be_sent::<B>(m, form),
        m.pin_token is None,
        wire::answer_outcome::<B, GetPinToken>(command, success(m, form), r),
    ensures
        r is Err,
        commands::lacks_field(r->Err_0->Command_0, "key_agreement"@),
{
    lemma_payload_of_success(m, form);
    lemma_fields_of_success::<B>(m, form);
}

/// A null in the place of the key agreement counts as absent: the field is reported missing, as if
/// there were no such entry.
pub proof fn law_null_key_is_reported_missing<B: CryptoBackend>(
    command: GetKeyAgreement,
    m: ResponseModel,
    form: AnswerForm,
    r: Result<KeyAgreement, HIDError>,
)
    requires
        is_plain_answer::<B>(m),
        m.key_agreement is None,
        form.null_key,
        !form.streamed,
        wire::answer_outcome::<B, GetKeyAgreement>(command, success(m, form), r),
    ensures
        r is Err,
        commands::lacks_field(r->Err_0->Command_0, "key_agreement"@),
{
    law_plain_answers_can_be_sent::<B>(m, form);
    law_key_agreement_arrives::<B>(command, m, form, r);
}

/// A null in the place of the token counts as absent: a field is reported missing, as if there were
/// no such entry.
pub proof fn law_null_token_is_reported_missing<'sc, 'pin, B: CryptoBackend>(
    command: GetPinToken<'sc, 'pin>,
    m: ResponseModel,
    form: AnswerForm,
    r: Result<PinToken, HIDError>,
)
    requires
        is_plain_answer::<B>(m),
        m.pin_token is None,
        form.null_token,
        !form.streamed,
        wire::answer_outcome::<B, GetPinToken>(command, success(m, form), r),
    ensures
        r is Err,
        commands::lacks_field(r->Err_0->Command_0, "key_agreement"@),
{
    law_plain_answers_can_be_sent::<B>(m, form);
    law_missing_token_is_reported::<B>(command, m, form, r);
}

/// Nulls for other fields do not keep the retries from arriving.
pub proof fn law_retries_arrive_beside_nulls<B: CryptoBackend>(
    command: GetRetries,
    m: ResponseModel,
    form: AnswerForm,
    r: Result<u8, HIDError>,
)
    requires
        is_plain_answer::<B>(m),
        m.retries is Some,
        !form.streamed,
        wire::answer_outcome::<B, GetRetries>(command, success(m, form), r),
    ensures
        r == Ok::<u8, HIDError>(m.retries->Some_0),
{
    law_plain_answers_can_be_sent::<B>(m, form);
    law_retries_arrive::<B>(command, m, form, r);
}

/// A bare status of success is all that setting a PIN needs for an answer.
pub proof fn law_bare_success_sets<'sc, 'pin, B: CryptoBackend>(
    command: SetNewPin<'sc, 'pin>,
    r: Result<(), HIDError>,
)
    requires
        wire::answer_outcome::<B, SetNewPin>(command, seq![0x00u8], r),
    ensures
        r is Ok,
{
    assert(seq![0x00u8].skip(1) =~= Seq::<u8>::empty());
}

/// A bare status of success is all that changing the PIN needs for an answer.
pub proof fn law_bare_success_changes<'sc, 'pin, B: CryptoBackend>(
    command: ChangeExistingPin<'sc, 'pin>,
    r: Result<(), HIDError>,
)
    requires
        wire::answer_outcome::<B, ChangeExistingPin>(command, seq![0x00u8], r),
    ensures
        r is Ok,
{
    assert(seq![0x00u8].skip(1) =~= Seq::<u8>::empty());
}

} // verus!
