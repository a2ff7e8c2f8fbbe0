//! Laws of the requests: what stands in the request of each command, down to what is handed to the
//! backend and what is taken from it.

use vstd::prelude::*;

use crate::cbor;
use crate::commands::{ChangeExistingPin, ClientPINSubCommand, GetKeyAgreement, GetPinToken};
use crate::commands::{AuthenticatorInfo, GetRetries, SetNewPin};
use crate::crypto::{self, BackendError, CryptoBackend, CryptoError};
use crate::errors::{CommandError, HIDError, StatusCode};
use crate::laws::pins;
use crate::pin::{self, PinAuth};
use crate::request::{self, ClientPIN, PINSubcommand};
use crate::wire;

verus! {

/// An authenticator speaks protocol one if and only if the number one stands anywhere in its list.
pub proof fn law_protocol_one_anywhere(info: AuthenticatorInfo)
    ensures
        info.speaks_one() <==> exists|i: int|
            0 <= i < info.pin_protocols@.len() && #[trigger] info.pin_protocols@[i] == 1,
{
}

/// Whatever else an authenticator supports, before or behind protocol one, it speaks protocol one.
pub proof fn law_other_protocols_do_not_matter(
    info: AuthenticatorInfo,
    before: Seq<u64>,
    behind: Seq<u64>,
)
    requires
        info.pin_protocols@ == before + seq![1u64] + behind,
    ensures
        info.speaks_one(),
{
    assert(info.pin_protocols@[before.len() as int] == 1);
}

/// An encryption is one call of the backend with that key and that data, both whole.
pub proof fn law_encryption_is_one_call<B: CryptoBackend>(
    key: Seq<u8>,
    data: Seq<u8>,
    r: Result<Vec<u8>, BackendError>,
)
    ensures
        crypto::encrypts::<B>(key, data, r) <==> exists|k: &[u8], d: &[u8]| #[trigger]
            call_ensures(B::encrypt, (k, d), r) && k@ == key && d@ == data,
{
}

/// A decryption is one call of the backend with that key and that data, both whole.
pub proof fn law_decryption_is_one_call<B: CryptoBackend>(
    key: Seq<u8>,
    data: Seq<u8>,
    r: Result<Vec<u8>, BackendError>,
)
    ensures
        crypto::decrypts::<B>(key, data, r) <==> exists|k: &[u8], d: &[u8]| #[trigger]
            call_ensures(B::decrypt, (k, d), r) && k@ == key && d@ == data,
{
}

/// A code is one call of the backend with that key and that data, both whole.
pub proof fn law_code_is_one_call<B: CryptoBackend>(
    key: Seq<u8>,
    data: Seq<u8>,
    r: Result<[u8; 32], BackendError>,
)
    ensures
        crypto::authenticates::<B>(key, data, r) <==> exists|k: &[u8], d: &[u8]| #[trigger]
            call_ensures(B::authenticate, (k, d), r) && k@ == key && d@ == data,
{
}

/// A request for the retries names its subcommand, and nothing else.
pub proof fn law_get_retries_asks_for_retries<B: CryptoBackend>(
    command: GetRetries,
    r: Result<ClientPIN, CommandError>,
)
    requires
        ClientPINSubCommand::<B>::client_pin_outcome(&command, r),
    ensures
        r is Ok,
        r->Ok_0.subcommand == PINSubcommand::GetRetries,
        r->Ok_0.pin_protocol is None,
        r->Ok_0.key_agreement is None,
        r->Ok_0.pin_auth is None,
        r->Ok_0.new_pin_enc is None,
        r->Ok_0.pin_hash_enc is None,
{
}

/// A request for the authenticator's key names its subcommand and protocol one, and nothing else.
pub proof fn law_get_key_agreement_asks_for_the_key<B: CryptoBackend>(
    command: GetKeyAgreement,
    r: Result<ClientPIN, CommandError>,
)
    requires
        ClientPINSubCommand::<B>::client_pin_outcome(&command, r),
    ensures
        r is Ok,
        r->Ok_0.subcommand == PINSubcommand::GetKeyAgreement,
        r->Ok_0.pin_protocol == Some(1u8),
        r->Ok_0.key_agreement is None,
        r->Ok_0.pin_auth is None,
        r->Ok_0.new_pin_enc is None,
        r->Ok_0.pin_hash_enc is None,
{
}

/// A request for a token names its subcommand, protocol one and the platform's key, and holds what
/// the backend made of the left half of the digest of all the bytes of the PIN, under the shared
/// secret. It is made unless the backend fails, and fails with the backend's error.
pub proof fn law_get_pin_token_asks_for_a_token<'sc, 'pin, B: CryptoBackend>(
    command: GetPinToken<'sc, 'pin>,
    r: Result<ClientPIN, CommandError>,
)
    requires
        ClientPINSubCommand::<B>::client_pin_outcome(&command, r),
    ensures
        r is Ok ==> {
            &&& r->Ok_0.subcommand == PINSubcommand::GetPINToken
            &&& r->Ok_0.pin_protocol == Some(1u8)
            &&& r->Ok_0.key_agreement is Some
            &&& r->Ok_0.key_agreement->Some_0@ == command.agreement().public_key()
            &&& r->Ok_0.pin_auth is None
            &&& r->Ok_0.new_pin_enc is None
            &&& r->Ok_0.pin_hash_enc is Some
        },
        r is Ok ==> exists|k: &[u8], d: &[u8], enc: Vec<u8>| #[trigger]
            call_ensures(B::encrypt, (k, d), Ok::<Vec<u8>, BackendError>(enc)) && k@
                == command.agreement().secret() && d@ == crypto::sha256_digest(
                vstd::utf8::encode_utf8(command.known_pin()@),
            ).subrange(0, 16) && r->Ok_0.pin_hash_enc->Some_0@ == enc@,
        r is Err ==> exists|k: &[u8], d: &[u8], e: BackendError| #[trigger]
            call_ensures(B::encrypt, (k, d), Err::<Vec<u8>, BackendError>(e)) && k@
                == command.agreement().secret() && d@ == crypto::sha256_digest(
                vstd::utf8::encode_utf8(command.known_pin()@),
            ).subrange(0, 16) && r->Err_0 == CommandError::Crypto(CryptoError::Backend(e)),
{
    let secret = command.agreement().secret();
    let hash = crypto::sha256_digest(vstd::utf8::encode_utf8(command.known_pin()@)).subrange(0, 16);
    pins::law_hash_is_of_the_whole_pin(command.known_pin());
    if r is Ok {
        let enc = choose|enc: Result<Vec<u8>, BackendError>| #[trigger]
            crypto::encrypts::<B>(secret, hash, enc) && enc is Ok
                && r->Ok_0.pin_hash_enc->Some_0@ == enc->Ok_0@;
        let (k, d) = choose|k: &[u8], d: &[u8]|
            k@ == secret && d@ == hash && #[trigger] call_ensures(B::encrypt, (k, d), enc);
        assert(call_ensures(B::encrypt, (k, d), Ok::<Vec<u8>, BackendError>(enc->Ok_0)));
    } else {
        let enc = choose|enc: Result<Vec<u8>, BackendError>| #[trigger]
            crypto::encrypts::<B>(secret, hash, enc) && enc is Err && r->Err_0
                == CommandError::Crypto(CryptoError::Backend(enc->Err_0));
        let (k, d) = choose|k: &[u8], d: &[u8]|
            k@ == secret && d@ == hash && #[trigger] call_ensures(B::encrypt, (k, d), enc);
        assert(call_ensures(B::encrypt, (k, d), Err::<Vec<u8>, BackendError>(enc->Err_0)));
    }
}

/// A PIN of more than 63 bytes in UTF-8 is not sent, by either command, and the failure is that of
/// the authenticator's policy.
pub proof fn law_long_pins_violate_the_policy<'sc, 'pin, B: CryptoBackend>(
    set: SetNewPin<'sc, 'pin>,
    change: ChangeExistingPin<'sc, 'pin>,
    r: Result<ClientPIN, CommandError>,
    s: Result<ClientPIN, CommandError>,
)
    requires
        ClientPINSubCommand::<B>::client_pin_outcome(&set, r),
        ClientPINSubCommand::<B>::client_pin_outcome(&change, s),
    ensures
        vstd::utf8::encode_utf8(set.pin_to_set()@).len() > 63 ==> r == Err::<
            ClientPIN,
            CommandError,
        >(CommandError::StatusCode(StatusCode::PinPolicyViolation, None)),
        vstd::utf8::encode_utf8(change.pin_to_set()@).len() > 63 ==> s == Err::<
            ClientPIN,
            CommandError,
        >(CommandError::StatusCode(StatusCode::PinPolicyViolation, None)),
        vstd::utf8::encode_utf8(set.pin_to_set()@).len() <= 63 && r is Err ==> r->Err_0 is Crypto,
        vstd::utf8::encode_utf8(change.pin_to_set()@).len() <= 63 && s is Err ==> s->Err_0 is Crypto,
{
}

/// The block of a PIN is its bytes with zeros behind them.
proof fn lemma_block(p: Seq<u8>)
    requires
        p.len() <= 63,
    ensures
        pin::pin_block(p) == p + Seq::new((64 - p.len()) as nat, |i: int| 0u8),
{
    assert(pin::pin_block(p) =~= p + Seq::new((64 - p.len()) as nat, |i: int| 0u8));
}

/// A request that sets a PIN names its subcommand, protocol one and the platform's key, and holds
/// what the backend made of all the bytes of the PIN with zeros behind them up to 64, under the
/// shared secret, and the first 16 bytes of the code that the backend made of that, under the shared
/// secret as well.
pub proof fn law_set_pin_sets_that_pin<'sc, 'pin, B: CryptoBackend>(
    command: SetNewPin<'sc, 'pin>,
    r: Result<ClientPIN, CommandError>,
)
    requires
        ClientPINSubCommand::<B>::client_pin_outcome(&command, r),
        r is Ok,
    ensures
        r->Ok_0.subcommand == PINSubcommand::SetPIN,
        r->Ok_0.pin_protocol == Some(1u8),
        r->Ok_0.key_agreement is Some,
        r->Ok_0.key_agreement->Some_0@ == command.agreement().public_key(),
        r->Ok_0.pin_hash_enc is None,
        r->Ok_0.new_pin_enc is Some,
        r->Ok_0.pin_auth is Some,
        r->Ok_0.pin_auth->Some_0@.len() == 16,
        vstd::utf8::encode_utf8(command.pin_to_set()@).len() <= 63,
        exists|k: &[u8], d: &[u8], enc: Vec<u8>| #[trigger]
            call_ensures(B::encrypt, (k, d), Ok::<Vec<u8>, BackendError>(enc)) && k@
                == command.agreement().secret() && d@ == vstd::utf8::encode_utf8(
                command.pin_to_set()@,
            ) + Seq::new(
                (64 - vstd::utf8::encode_utf8(command.pin_to_set()@).len()) as nat,
                |i: int| 0u8,
            ) && r->Ok_0.new_pin_enc->Some_0@ == enc@,
        exists|k: &[u8], d: &[u8], code: [u8; 32]| #[trigger]
            call_ensures(B::authenticate, (k, d), Ok::<[u8; 32], BackendError>(code)) && k@
                == command.agreement().secret() && d@ == r->Ok_0.new_pin_enc->Some_0@
                && r->Ok_0.pin_auth->Some_0@ == code@.subrange(0, 16),
{
    let secret = command.agreement().secret();
    let bytes = vstd::utf8::encode_utf8(command.pin_to_set()@);
    let block = bytes + Seq::new((64 - bytes.len()) as nat, |i: int| 0u8);
    pins::law_bytes_are_the_whole_pin(command.pin_to_set());
    lemma_block(bytes);
    let sent = r->Ok_0.new_pin_enc->Some_0@;
    let enc = choose|enc: Result<Vec<u8>, BackendError>| #[trigger]
        crypto::encrypts::<B>(secret, block, enc) && enc is Ok && sent == enc->Ok_0@;
    let (k, d) = choose|k: &[u8], d: &[u8]|
        k@ == secret && d@ == block && #[trigger] call_ensures(B::encrypt, (k, d), enc);
    assert(call_ensures(B::encrypt, (k, d), Ok::<Vec<u8>, BackendError>(enc->Ok_0)));
    let auth = choose|auth: Result<PinAuth, CryptoError>| #[trigger]
        pin::auth_outcome::<B>(secret, sent, auth) && auth is Ok && auth->Ok_0@
            == r->Ok_0.pin_auth->Some_0@;
    pins::law_auth_is_one_call::<B>(secret, sent, auth);
    let (k, d, code) = choose|k: &[u8], d: &[u8], code: [u8; 32]| #[trigger]
        call_ensures(B::authenticate, (k, d), Ok::<[u8; 32], BackendError>(code)) && k@ == secret
            && d@ == sent && auth->Ok_0@ == code@.subrange(0, 16);
    assert(call_ensures(B::authenticate, (k, d), Ok::<[u8; 32], BackendError>(code)));
}

/// A request that changes the PIN names its subcommand, protocol one and the platform's key, and
/// holds what the backend made of all the bytes of the new PIN with zeros behind them up to 64, what
/// it made of the left half of the digest of all the bytes of the current one, and the first 16 bytes
/// of the code that it made of the one followed by the other, all under the shared secret.
pub proof fn law_change_pin_changes_to_that_pin<'sc, 'pin, B: CryptoBackend>(
    command: ChangeExistingPin<'sc, 'pin>,
    r: Result<ClientPIN, CommandError>,
)
    requires
        ClientPINSubCommand::<B>::client_pin_outcome(&command, r),
        r is Ok,
    ensures
        r->Ok_0.subcommand == PINSubcommand::ChangePIN,
        r->Ok_0.pin_protocol == Some(1u8),
        r->Ok_0.key_agreement is Some,
        r->Ok_0.key_agreement->Some_0@ == command.agreement().public_key(),
        r->Ok_0.new_pin_enc is Some,
        r->Ok_0.pin_hash_enc is Some,
        r->Ok_0.pin_auth is Some,
        r->Ok_0.pin_auth->Some_0@.len() == 16,
        vstd::utf8::encode_utf8(command.pin_to_set()@).len() <= 63,
        exists|k: &[u8], d: &[u8], enc: Vec<u8>| #[trigger]
            call_ensures(B::encrypt, (k, d), Ok::<Vec<u8>, BackendError>(enc)) && k@
                == command.agreement().secret() && d@ == vstd::utf8::encode_utf8(
                command.pin_to_set()@,
            ) + Seq::new(
                (64 - vstd::utf8::encode_utf8(command.pin_to_set()@).len()) as nat,
                |i: int| 0u8,
            ) && r->Ok_0.new_pin_enc->Some_0@ == enc@,
        exists|k: &[u8], d: &[u8], enc: Vec<u8>| #[trigger]
            call_ensures(B::encrypt, (k, d), Ok::<Vec<u8>, BackendError>(enc)) && k@
                == command.agreement().secret() && d@ == crypto::sha256_digest(
                vstd::utf8::encode_utf8(command.known_pin()@),
            ).subrange(0, 16) && r->Ok_0.pin_hash_enc->Some_0@ == enc@,
        exists|k: &[u8], d: &[u8], code: [u8; 32]| #[trigger]
            call_ensures(B::authenticate, (k, d), Ok::<[u8; 32], BackendError>(code)) && k@
                == command.agreement().secret() && d@ == r->Ok_0.new_pin_enc->Some_0@
                + r->Ok_0.pin_hash_enc->Some_0@ && r->Ok_0.pin_auth->Some_0@ == code@.subrange(
                0,
                16,
            ),
{
    let secret = command.agreement().secret();
    let bytes = vstd::utf8::encode_utf8(command.pin_to_set()@);
    let block = bytes + Seq::new((64 - bytes.len()) as nat, |i: int| 0u8);
    let hash = crypto::sha256_digest(vstd::utf8::encode_utf8(command.known_pin()@)).subrange(0, 16);
    pins::law_bytes_are_the_whole_pin(command.pin_to_set());
    pins::law_hash_is_of_the_whole_pin(command.known_pin());
    lemma_block(bytes);
    let sent = r->Ok_0.new_pin_enc->Some_0@;
    let sent_hash = r->Ok_0.pin_hash_enc->Some_0@;
    let enc = choose|enc: Result<Vec<u8>, BackendError>| #[trigger]
        crypto::encrypts::<B>(secret, block, enc) && enc is Ok && command.hash_outcome::<B>(
            enc->Ok_0@,
            r,
        );
    let (k, d) = choose|k: &[u8], d: &[u8]|
        k@ == secret && d@ == block && #[trigger] call_ensures(B::encrypt, (k, d), enc);
    assert(call_ensures(B::encrypt, (k, d), Ok::<Vec<u8>, BackendError>(enc->Ok_0)));
    let hash_enc = choose|hash_enc: Result<Vec<u8>, BackendError>| #[trigger]
        crypto::encrypts::<B>(secret, hash, hash_enc) && hash_enc is Ok && sent_hash
            == hash_enc->Ok_0@;
    let (k, d) = choose|k: &[u8], d: &[u8]|
        k@ == secret && d@ == hash && #[trigger] call_ensures(B::encrypt, (k, d), hash_enc);
    assert(call_ensures(B::encrypt, (k, d), Ok::<Vec<u8>, BackendError>(hash_enc->Ok_0)));
    let both = sent + sent_hash;
    let auth = choose|auth: Result<PinAuth, CryptoError>| #[trigger]
        pin::auth_outcome::<B>(secret, both, auth) && auth is Ok && auth->Ok_0@
            == r->Ok_0.pin_auth->Some_0@;
    pins::law_auth_is_one_call::<B>(secret, both, auth);
    let (k, d, code) = choose|k: &[u8], d: &[u8], code: [u8; 32]| #[trigger]
        call_ensures(B::authenticate, (k, d), Ok::<[u8; 32], BackendError>(code)) && k@ == secret
            && d@ == both && auth->Ok_0@ == code@.subrange(0, 16);
    assert(call_ensures(B::authenticate, (k, d), Ok::<[u8; 32], BackendError>(code)));
}

/// Setting a PIN of up to 63 bytes fails only as the backend does: in encrypting the padded PIN, or in
/// authenticating what it was encrypted to.
pub proof fn law_set_pin_fails_as_the_backend<'sc, 'pin, B: CryptoBackend>(
    command: SetNewPin<'sc, 'pin>,
    r: Result<ClientPIN, CommandError>,
)
    requires
        ClientPINSubCommand::<B>::client_pin_outcome(&command, r),
        vstd::utf8::encode_utf8(command.pin_to_set()@).len() <= 63,
        r is Err,
    ensures
        (exists|k: &[u8], d: &[u8], e: BackendError| #[trigger]
            call_ensures(B::encrypt, (k, d), Err::<Vec<u8>, BackendError>(e)) && k@
                == command.agreement().secret() && d@ == vstd::utf8::encode_utf8(
                command.pin_to_set()@,
            ) + Seq::new(
                (64 - vstd::utf8::encode_utf8(command.pin_to_set()@).len()) as nat,
                |i: int| 0u8,
            ) && r->Err_0 == CommandError::Crypto(CryptoError::Backend(e))) || (exists|
            k: &[u8],
            d: &[u8],
            e: BackendError,
        | #[trigger]
            call_ensures(B::authenticate, (k, d), Err::<[u8; 32], BackendError>(e)) && k@
                == command.agreement().secret() && r->Err_0 == CommandError::Crypto(
                CryptoError::Backend(e),
            )),
{
    let secret = command.agreement().secret();
    let bytes = vstd::utf8::encode_utf8(command.pin_to_set()@);
    let block = bytes + Seq::new((64 - bytes.len()) as nat, |i: int| 0u8);
    pins::law_bytes_are_the_whole_pin(command.pin_to_set());
    lemma_block(bytes);
    let enc = choose|enc: Result<Vec<u8>, BackendError>| #[trigger]
        crypto::encrypts::<B>(secret, block, enc) && match enc {
            Ok(enc) => exists|auth: Result<PinAuth, CryptoError>| #[trigger]
                pin::auth_outcome::<B>(secret, enc@, auth) && auth is Err && r->Err_0
                    == CommandError::Crypto(auth->Err_0),
            Err(e) => r->Err_0 == CommandError::Crypto(CryptoError::Backend(e)),
        };
    match enc {
        Ok(enc) => {
            let auth = choose|auth: Result<PinAuth, CryptoError>| #[trigger]
                pin::auth_outcome::<B>(secret, enc@, auth) && auth is Err && r->Err_0
                    == CommandError::Crypto(auth->Err_0);
            pins::law_auth_is_one_call::<B>(secret, enc@, auth);
        },
        Err(e) => {
            let (k, d) = choose|k: &[u8], d: &[u8]|
                k@ == secret && d@ == block && #[trigger] call_ensures(
                    B::encrypt,
                    (k, d),
                    Err::<Vec<u8>, BackendError>(e),
                );
            assert(call_ensures(B::encrypt, (k, d), Err::<Vec<u8>, BackendError>(e)));
        },
    }
}

/// Changing the PIN to one of up to 63 bytes fails only as the backend does: in encrypting or in
/// authenticating under the shared secret.
pub proof fn law_change_pin_fails_as_the_backend<'sc, 'pin, B: CryptoBackend>(
    command: ChangeExistingPin<'sc, 'pin>,
    r: Result<ClientPIN, CommandError>,
)
    requires
        ClientPINSubCommand::<B>::client_pin_outcome(&command, r),
        vstd::utf8::encode_utf8(command.pin_to_set()@).len() <= 63,
        r is Err,
    ensures
        (exists|k: &[u8], d: &[u8], e: BackendError| #[trigger]
            call_ensures(B::encrypt, (k, d), Err::<Vec<u8>, BackendError>(e)) && k@
                == command.agreement().secret() && r->Err_0 == CommandError::Crypto(
                CryptoError::Backend(e),
            )) || (exists|k: &[u8], d: &[u8], e: BackendError| #[trigger]
            call_ensures(B::authenticate, (k, d), Err::<[u8; 32], BackendError>(e)) && k@
                == command.agreement().secret() && r->Err_0 == CommandError::Crypto(
                CryptoError::Backend(e),
            )),
{
    let secret = command.agreement().secret();
    let block = pin::pin_block(command.pin_to_set().bytes());
    let hash = command.known_pin().pin_hash();
    pins::law_bytes_are_the_whole_pin(command.pin_to_set());
    let enc = choose|enc: Result<Vec<u8>, BackendError>| #[trigger]
        crypto::encrypts::<B>(secret, block, enc) && match enc {
            Ok(enc) => command.hash_outcome::<B>(enc@, r),
            Err(e) => r->Err_0 == CommandError::Crypto(CryptoError::Backend(e)),
        };
    match enc {
        Ok(enc) => {
            let hash_enc = choose|hash_enc: Result<Vec<u8>, BackendError>| #[trigger]
                crypto::encrypts::<B>(secret, hash, hash_enc) && match hash_enc {
                    Ok(hash_enc) => exists|auth: Result<PinAuth, CryptoError>| #[trigger]
                        pin::auth_outcome::<B>(secret, enc@ + hash_enc@, auth) && auth is Err
                            && r->Err_0 == CommandError::Crypto(auth->Err_0),
                    Err(e) => r->Err_0 == CommandError::Crypto(CryptoError::Backend(e)),
                };
            match hash_enc {
                Ok(hash_enc) => {
                    let auth = choose|auth: Result<PinAuth, CryptoError>| #[trigger]
                        pin::auth_outcome::<B>(secret, enc@ + hash_enc@, auth) && auth is Err
                            && r->Err_0 == CommandError::Crypto(auth->Err_0);
                    pins::law_auth_is_one_call::<B>(secret, enc@ + hash_enc@, auth);
                },
                Err(e) => {
                    let (k, d) = choose|k: &[u8], d: &[u8]|
                        k@ == secret && d@ == hash && #[trigger] call_ensures(
                            B::encrypt,
                            (k, d),
                            Err::<Vec<u8>, BackendError>(e),
                        );
                    assert(call_ensures(B::encrypt, (k, d), Err::<Vec<u8>, BackendError>(e)));
                },
            }
        },
        Err(e) => {
            let (k, d) = choose|k: &[u8], d: &[u8]|
                k@ == secret && d@ == block && #[trigger] call_ensures(
                    B::encrypt,
                    (k, d),
                    Err::<Vec<u8>, BackendError>(e),
                );
            assert(call_ensures(B::encrypt, (k, d), Err::<Vec<u8>, BackendError>(e)));
        },
    }
}

/// A number on the wire: itself up to 23, and behind the byte 0x18 from there on.
pub proof fn law_numbers_on_the_wire(n: u8)
    ensures
        n < 24 ==> cbor::cbor_uint(n) == seq![n],
        n >= 24 ==> cbor::cbor_uint(n) == seq![0x18u8, n],
{
    if n >= 24 {
        reveal_with_fuel(cbor::be_bytes, 2);
        assert(cbor::cbor_uint(n) =~= seq![0x18u8, n]);
    }
}

/// A byte string on the wire: the byte 0x40 and its length in one number, or 0x58 to 0x5b and its
/// length in one, two, four or eight bytes, the highest first; then the bytes.
pub proof fn law_byte_strings_on_the_wire(d: Seq<u8>)
    ensures
        d.len() < 24 ==> cbor::cbor_bytes(d) == seq![(0x40 + d.len()) as u8] + d,
        24 <= d.len() < 0x100 ==> cbor::cbor_bytes(d) == seq![0x58u8, d.len() as u8] + d,
        0x100 <= d.len() < 0x1_0000 ==> cbor::cbor_bytes(d) == seq![
            0x59u8,
            (d.len() / 0x100) as u8,
            (d.len() % 0x100) as u8,
        ] + d,
        0x1_0000 <= d.len() < 0x1_0000_0000 ==> cbor::cbor_bytes(d) == seq![
            0x5au8,
            (d.len() / 0x100_0000) as u8,
            (d.len() / 0x1_0000 % 0x100) as u8,
            (d.len() / 0x100 % 0x100) as u8,
            (d.len() % 0x100) as u8,
        ] + d,
        0x1_0000_0000 <= d.len() ==> cbor::cbor_bytes(d)[0] == 0x5b && cbor::cbor_bytes(d).len()
            == 9 + d.len() && cbor::cbor_bytes(d).skip(9) == d,
{
    let n = d.len();
    reveal_with_fuel(cbor::be_bytes, 9);
    if n < 24 {
    } else if n < 0x100 {
        assert(cbor::cbor_bytes(d) =~= seq![0x58u8, n as u8] + d);
    } else if n < 0x1_0000 {
        assert(cbor::cbor_bytes(d) =~= seq![0x59u8, (n / 0x100) as u8, (n % 0x100) as u8] + d);
    } else if n < 0x1_0000_0000 {
        assert(n / 0x100 / 0x100 == n / 0x1_0000);
        assert(n / 0x1_0000 / 0x100 == n / 0x100_0000);
        assert(cbor::cbor_bytes(d) =~= seq![
            0x5au8,
            (n / 0x100_0000) as u8,
            (n / 0x1_0000 % 0x100) as u8,
            (n / 0x100 % 0x100) as u8,
            (n % 0x100) as u8,
        ] + d);
    } else {
        assert(cbor::be_bytes(n, 8).len() == 8);
        assert(cbor::cbor_bytes(d).skip(9) =~= d);
    }
}

/// The fields of a request, as its contents have them.
pub proof fn law_request_contents_are_its_fields(c: ClientPIN)
    ensures
        c@.pin_protocol == c.pin_protocol,
        c@.subcommand == c.subcommand,
        c.key_agreement is Some ==> c@.key_agreement == Some(c.key_agreement->Some_0@),
        c.key_agreement is None ==> c@.key_agreement is None,
        c.pin_auth is Some ==> c@.pin_auth == Some(c.pin_auth->Some_0@),
        c.pin_auth is None ==> c@.pin_auth is None,
        c.new_pin_enc is Some ==> c@.new_pin_enc == Some(c.new_pin_enc->Some_0@),
        c.new_pin_enc is None ==> c@.new_pin_enc is None,
        c.pin_hash_enc is Some ==> c@.pin_hash_enc == Some(c.pin_hash_enc->Some_0@),
        c.pin_hash_enc is None ==> c@.pin_hash_enc is None,
{
}

/// A request on the wire, byte by byte: the head of a map with as many entries as there are fields;
/// then, for each field that is there, its key and its value, the keys one to six in their order.
pub proof fn law_request_on_the_wire(c: ClientPIN)
    ensures
        c@.encoding() == seq![
            (0xa1 + (if c.pin_protocol is Some {
                1int
            } else {
                0
            }) + (if c.key_agreement is Some {
                1int
            } else {
                0
            }) + (if c.pin_auth is Some {
                1int
            } else {
                0
            }) + (if c.new_pin_enc is Some {
                1int
            } else {
                0
            }) + (if c.pin_hash_enc is Some {
                1int
            } else {
                0
            })) as u8,
        ] + ((match c.pin_protocol {
            Some(protocol) => seq![0x01u8] + cbor::cbor_uint(protocol),
            None => Seq::empty(),
        }) + seq![
            0x02u8,
            match c.subcommand {
                PINSubcommand::GetRetries => 0x01u8,
                PINSubcommand::GetKeyAgreement => 0x02u8,
                PINSubcommand::SetPIN => 0x03u8,
                PINSubcommand::ChangePIN => 0x04u8,
                PINSubcommand::GetPINToken => 0x05u8,
            },
        ] + (match c.key_agreement {
            Some(key) => seq![0x03u8] + key@,
            None => Seq::empty(),
        }) + (match c.pin_auth {
            Some(auth) => seq![0x04u8] + cbor::cbor_bytes(auth@),
            None => Seq::empty(),
        }) + (match c.new_pin_enc {
            Some(enc) => seq![0x05u8] + cbor::cbor_bytes(enc@),
            None => Seq::empty(),
        }) + (match c.pin_hash_enc {
            Some(enc) => seq![0x06u8] + cbor::cbor_bytes(enc@),
            None => Seq::empty(),
        })),
{
    request::lemma_request_flat(c@);
    law_numbers_on_the_wire(1);
    law_numbers_on_the_wire(2);
    law_numbers_on_the_wire(3);
    law_numbers_on_the_wire(4);
    law_numbers_on_the_wire(5);
    law_numbers_on_the_wire(6);
    law_numbers_on_the_wire(c.subcommand.number());
    assert(request::entry_bytes(2, Some(cbor::cbor_uint(c.subcommand.number()))) =~= seq![
        0x02u8,
        c.subcommand.number(),
    ]);
}

/// What goes on the wire is the encoding of the request that the command makes, and a failure is that
/// of making it.
pub proof fn law_wire_is_the_request<B: CryptoBackend, T: ClientPINSubCommand<B>>(
    command: T,
    r: Result<Vec<u8>, HIDError>,
)
    requires
        wire::wire_outcome::<B, T>(command, r),
    ensures
        r is Ok ==> exists|request: ClientPIN| #[trigger]
            command.client_pin_outcome(Ok::<ClientPIN, CommandError>(request)) && r->Ok_0@
                == request@.encoding(),
        r is Err ==> exists|e: CommandError| #[trigger]
            command.client_pin_outcome(Err::<ClientPIN, CommandError>(e)) && r->Err_0
                == HIDError::Command(e),
{
    let request = choose|request: Result<ClientPIN, CommandError>| #[trigger]
        command.client_pin_outcome(request) && match request {
            Ok(request) => r is Ok && r->Ok_0@ == request@.encoding(),
            Err(e) => r == Err::<Vec<u8>, HIDError>(HIDError::Command(e)),
        };
    match request {
        Ok(request) => {
            assert(command.client_pin_outcome(Ok::<ClientPIN, CommandError>(request)));
        },
        Err(e) => {
            assert(command.client_pin_outcome(Err::<ClientPIN, CommandError>(e)));
        },
    }
}

/// How a request for a token starts on the wire: a map of four, protocol one, subcommand five, and
/// the platform's key.
pub proof fn law_get_pin_token_on_the_wire<'sc, 'pin, B: CryptoBackend>(
    command: GetPinToken<'sc, 'pin>,
    r: Result<Vec<u8>, HIDError>,
)
    requires
        wire::wire_outcome::<B, GetPinToken>(command, r),
        r is Ok,
    ensures
        (seq![0xa4u8, 0x01, 0x01, 0x02, 0x05, 0x03] + command.agreement().public_key() + seq![
            0x06u8,
        ]).is_prefix_of(r->Ok_0@),
{
    law_wire_is_the_request::<B, GetPinToken>(command, r);
    let c = choose|c: ClientPIN| #[trigger]
        ClientPINSubCommand::<B>::client_pin_outcome(&command, Ok::<ClientPIN, CommandError>(c))
            && r->Ok_0@ == c@.encoding();
    law_get_pin_token_asks_for_a_token::<B>(command, Ok(c));
    law_request_on_the_wire(c);
    law_numbers_on_the_wire(1);
    let start = seq![0xa4u8, 0x01, 0x01, 0x02, 0x05, 0x03] + command.agreement().public_key()
        + seq![0x06u8];
    assert(start =~= r->Ok_0@.take(start.len() as int));
}

/// How a request that sets a PIN starts on the wire: a map of five, protocol one, subcommand three,
/// the platform's key, and a code of 16 bytes.
pub proof fn law_set_pin_on_the_wire<'sc, 'pin, B: CryptoBackend>(
    command: SetNewPin<'sc, 'pin>,
    r: Result<Vec<u8>, HIDError>,
)
    requires
        wire::wire_outcome::<B, SetNewPin>(command, r),
        r is Ok,
    ensures
        (seq![0xa5u8, 0x01, 0x01, 0x02, 0x03, 0x03] + command.agreement().public_key() + seq![
            0x04u8,
            0x50,
        ]).is_prefix_of(r->Ok_0@),
{
    law_wire_is_the_request::<B, SetNewPin>(command, r);
    let c = choose|c: ClientPIN| #[trigger]
        ClientPINSubCommand::<B>::client_pin_outcome(&command, Ok::<ClientPIN, CommandError>(c))
            && r->Ok_0@ == c@.encoding();
    law_set_pin_sets_that_pin::<B>(command, Ok(c));
    law_request_on_the_wire(c);
    law_numbers_on_the_wire(1);
    law_byte_strings_on_the_wire(c.pin_auth->Some_0@);
    let start = seq![0xa5u8, 0x01, 0x01, 0x02, 0x03, 0x03] + command.agreement().public_key()
        + seq![0x04u8, 0x50];
    assert(start =~= r->Ok_0@.take(start.len() as int));
}

/// How a request that changes the PIN starts on the wire: a map of six, protocol one, subcommand
/// four, the platform's key, and a code of 16 bytes.
pub proof fn law_change_pin_on_the_wire<'sc, 'pin, B: CryptoBackend>(
    command: ChangeExistingPin<'sc, 'pin>,
    r: Result<Vec<u8>, HIDError>,
)
    requires
        wire::wire_outcome::<B, ChangeExistingPin>(command, r),
        r is Ok,
    ensures
        (seq![0xa6u8, 0x01, 0x01, 0x02, 0x04, 0x03] + command.agreement().public_key() + seq![
            0x04u8,
            0x50,
        ]).is_prefix_of(r->Ok_0@),
{
    law_wire_is_the_request::<B, ChangeExistingPin>(command, r);
    let c = choose|c: ClientPIN| #[trigger]
        ClientPINSubCommand::<B>::client_pin_outcome(&command, Ok::<ClientPIN, CommandError>(c))
            && r->Ok_0@ == c@.encoding();
    law_change_pin_changes_to_that_pin::<B>(command, Ok(c));
    law_request_on_the_wire(c);
    law_numbers_on_the_wire(1);
    law_byte_strings_on_the_wire(c.pin_auth->Some_0@);
    let start = seq![0xa6u8, 0x01, 0x01, 0x02, 0x04, 0x03] + command.agreement().public_key()
        + seq![0x04u8, 0x50];
    assert(start =~= r->Ok_0@.take(start.len() as int));
}

} // verus!
