use client_pin::cbor::read_map_head;
use client_pin::crypto::{BackendError, COSEKey, CryptoBackend, CryptoError, ECDHSecret};
use client_pin::{AuthenticatorInfo, ClientPIN, ClientPINSubCommand, PINSubcommand, Pin, PinAuth};
use client_pin::{ChangeExistingPin, GetKeyAgreement, GetPinToken, GetRetries, SetNewPin};
use client_pin::{Command, CommandError, HIDError, RequestCtap2, StatusCode};
use serde_cbor::Value;
use std::collections::BTreeMap;

/// Encryption adds one to each byte, and the code of a message is its length and its bytes.
struct Plus;

impl CryptoBackend for Plus {
    fn encrypt(key: &[u8], data: &[u8]) -> Result<Vec<u8>, BackendError> {
        assert_eq!(key, SECRET);
        Ok(data.iter().map(|b| b.wrapping_add(1)).collect())
    }

    fn decrypt(key: &[u8], data: &[u8]) -> Result<Vec<u8>, BackendError> {
        assert_eq!(key, SECRET);
        Ok(data.iter().map(|b| b.wrapping_sub(1)).collect())
    }

    fn authenticate(key: &[u8], data: &[u8]) -> Result<[u8; 32], BackendError> {
        assert_eq!(key, SECRET);
        let mut code = [0u8; 32];
        code[0] = data.len() as u8;
        for (i, b) in data.iter().enumerate() {
            code[1 + i % 31] ^= *b;
        }
        Ok(code)
    }

    fn encapsulate(_peer: &COSEKey) -> Result<ECDHSecret, BackendError> {
        Ok(secret())
    }

    fn parse_key(item: &[u8]) -> Result<COSEKey, serde_cbor::Error> {
        COSEKey::new(item.to_vec())
    }
}

/// Nothing but the encryption of short messages works.
struct Short;

impl CryptoBackend for Short {
    fn encrypt(_key: &[u8], data: &[u8]) -> Result<Vec<u8>, BackendError> {
        if data.len() == 64 {
            Ok(data.to_vec())
        } else {
            Err(BackendError(String::from("short")))
        }
    }

    fn decrypt(_key: &[u8], _data: &[u8]) -> Result<Vec<u8>, BackendError> {
        Err(BackendError(String::from("decrypt")))
    }

    fn authenticate(_key: &[u8], _data: &[u8]) -> Result<[u8; 32], BackendError> {
        Err(BackendError(String::from("authenticate")))
    }

    fn encapsulate(_peer: &COSEKey) -> Result<ECDHSecret, BackendError> {
        Err(BackendError(String::from("encapsulate")))
    }

    fn parse_key(item: &[u8]) -> Result<COSEKey, serde_cbor::Error> {
        COSEKey::new(item.to_vec())
    }
}

const SECRET: &[u8] = &[0x11, 0x22, 0x33];

/// `{1: 2, 3: -25}`
const PUBLIC: &[u8] = &[0xa2, 0x01, 0x02, 0x03, 0x38, 0x18];

fn secret() -> ECDHSecret {
    ECDHSecret::new(COSEKey::new(PUBLIC.to_vec()).unwrap(), SECRET.to_vec())
}

fn info(pin_protocols: &[u64]) -> AuthenticatorInfo {
    AuthenticatorInfo { pin_protocols: pin_protocols.to_vec() }
}

fn map(entries: Vec<(i128, Value)>) -> Vec<u8> {
    let map: BTreeMap<Value, Value> =
        entries.into_iter().map(|(k, v)| (Value::Integer(k), v)).collect();
    serde_cbor::to_vec(&Value::Map(map)).unwrap()
}

fn public_value() -> Value {
    serde_cbor::from_slice(PUBLIC).unwrap()
}

fn block(pin: &[u8]) -> Vec<u8> {
    let mut block = pin.to_vec();
    block.resize(64, 0);
    block
}

const HASH_OF_1234: [u8; 16] = [
    0x03, 0xac, 0x67, 0x42, 0x16, 0xf3, 0xe1, 0x5c, 0x76, 0x1e, 0xe1, 0xa5, 0xe2, 0x55, 0xf0, 0x67,
];

#[test]
fn subcommand_numbers() {
    assert_eq!(PINSubcommand::GetRetries.code(), 1);
    assert_eq!(PINSubcommand::GetKeyAgreement.code(), 2);
    assert_eq!(PINSubcommand::SetPIN.code(), 3);
    assert_eq!(PINSubcommand::ChangePIN.code(), 4);
    assert_eq!(PINSubcommand::GetPINToken.code(), 5);
}

#[test]
fn default_request_asks_for_retries() {
    assert_eq!(ClientPIN::default().serialize().unwrap(), vec![0xa1, 0x02, 0x01]);
}

#[test]
fn full_request_is_the_map_that_serde_cbor_writes() {
    let request = ClientPIN {
        pin_protocol: Some(200),
        subcommand: PINSubcommand::ChangePIN,
        key_agreement: Some(COSEKey::new(PUBLIC.to_vec()).unwrap()),
        pin_auth: Some(PinAuth::from_digest(&[9u8; 16])),
        new_pin_enc: Some(vec![5u8; 300]),
        pin_hash_enc: Some(vec![6u8; 24]),
    };
    let expected = map(vec![
        (1, Value::Integer(200)),
        (2, Value::Integer(4)),
        (3, public_value()),
        (4, Value::Bytes(vec![9u8; 16])),
        (5, Value::Bytes(vec![5u8; 300])),
        (6, Value::Bytes(vec![6u8; 24])),
    ]);
    assert_eq!(request.serialize().unwrap(), expected);
}

#[test]
fn requests_with_some_fields() {
    let request = ClientPIN {
        pin_hash_enc: Some(vec![]),
        new_pin_enc: Some(vec![1u8; 70000]),
        ..ClientPIN::default()
    };
    let expected = map(vec![
        (2, Value::Integer(1)),
        (5, Value::Bytes(vec![1u8; 70000])),
        (6, Value::Bytes(vec![])),
    ]);
    assert_eq!(request.serialize().unwrap(), expected);
}

#[test]
fn request_announces_its_entries() {
    let request = ClientPIN { pin_protocol: Some(1), ..ClientPIN::default() };
    let bytes = request.serialize().unwrap();
    let head = read_map_head(&bytes).unwrap();
    assert_eq!(head.count, Some(2));
    assert_eq!(head.len, 1);
}

#[test]
fn commands_need_protocol_one() {
    let secret = secret();
    let pin = Pin::new("1234");
    for protocols in [&[][..], &[2][..], &[0, 2, 3][..]] {
        let info = info(protocols);
        assert!(matches!(
            GetKeyAgreement::new(&info),
            Err(CommandError::UnsupportedPinProtocol)
        ));
        assert!(matches!(
            GetPinToken::new(&info, &secret, &pin),
            Err(CommandError::UnsupportedPinProtocol)
        ));
        assert!(matches!(
            SetNewPin::new(&info, &secret, &pin),
            Err(CommandError::UnsupportedPinProtocol)
        ));
        assert!(matches!(
            ChangeExistingPin::new(&info, &secret, &pin, &pin),
            Err(CommandError::UnsupportedPinProtocol)
        ));
    }
    assert!(GetKeyAgreement::new(&info(&[2, 1])).is_ok());
    assert!(SetNewPin::new(&info(&[1]), &secret, &pin).is_ok());
}

#[test]
fn every_command_is_client_pin() {
    assert_eq!(<GetRetries as RequestCtap2<Plus>>::command(), Command::ClientPin);
    assert_eq!(<SetNewPin as RequestCtap2<Plus>>::command(), Command::ClientPin);
}

#[test]
fn get_retries_on_the_wire() {
    let wire = RequestCtap2::<Plus>::wire_format(&GetRetries::new()).unwrap();
    assert_eq!(wire, vec![0xa1, 0x02, 0x01]);
}

#[test]
fn get_key_agreement_on_the_wire() {
    let command = GetKeyAgreement::new(&info(&[1])).unwrap();
    let wire = RequestCtap2::<Short>::wire_format(&command).unwrap();
    assert_eq!(wire, vec![0xa2, 0x01, 0x01, 0x02, 0x02]);
}

#[test]
fn get_pin_token_on_the_wire() {
    let (secret, pin) = (secret(), Pin::new("1234"));
    let command = GetPinToken::new(&info(&[1]), &secret, &pin).unwrap();
    let encrypted: Vec<u8> = HASH_OF_1234.iter().map(|b| b.wrapping_add(1)).collect();
    let expected = map(vec![
        (1, Value::Integer(1)),
        (2, Value::Integer(5)),
        (3, public_value()),
        (6, Value::Bytes(encrypted)),
    ]);
    assert_eq!(RequestCtap2::<Plus>::wire_format(&command).unwrap(), expected);
}

#[test]
fn set_new_pin_on_the_wire() {
    let (secret, pin) = (secret(), Pin::new("4711"));
    let command = SetNewPin::new(&info(&[1]), &secret, &pin).unwrap();
    let encrypted = Plus::encrypt(SECRET, &block(b"4711")).unwrap();
    let code = Plus::authenticate(SECRET, &encrypted).unwrap();
    let expected = map(vec![
        (1, Value::Integer(1)),
        (2, Value::Integer(3)),
        (3, public_value()),
        (4, Value::Bytes(code[..16].to_vec())),
        (5, Value::Bytes(encrypted)),
    ]);
    assert_eq!(RequestCtap2::<Plus>::wire_format(&command).unwrap(), expected);
}

#[test]
fn change_existing_pin_on_the_wire() {
    let (secret, current, new) = (secret(), Pin::new("1234"), Pin::new("4711"));
    let command = ChangeExistingPin::new(&info(&[1]), &secret, &current, &new).unwrap();
    let new_enc = Plus::encrypt(SECRET, &block(b"4711")).unwrap();
    let hash_enc = Plus::encrypt(SECRET, &HASH_OF_1234).unwrap();
    let both = [new_enc.as_slice(), hash_enc.as_slice()].concat();
    let code = Plus::authenticate(SECRET, &both).unwrap();
    let expected = map(vec![
        (1, Value::Integer(1)),
        (2, Value::Integer(4)),
        (3, public_value()),
        (4, Value::Bytes(code[..16].to_vec())),
        (5, Value::Bytes(new_enc)),
        (6, Value::Bytes(hash_enc)),
    ]);
    assert_eq!(RequestCtap2::<Plus>::wire_format(&command).unwrap(), expected);
}

#[test]
fn long_pins_are_refused_before_any_cryptography() {
    let (secret, long) = (secret(), Pin::new(&"x".repeat(64)));
    let set = SetNewPin::new(&info(&[1]), &secret, &long).unwrap();
    assert!(matches!(
        RequestCtap2::<Short>::wire_format(&set),
        Err(HIDError::Command(CommandError::StatusCode(StatusCode::PinPolicyViolation, None)))
    ));
    let change = ChangeExistingPin::new(&info(&[1]), &secret, &long, &long).unwrap();
    assert!(matches!(
        ClientPINSubCommand::<Short>::as_client_pin(&change),
        Err(CommandError::StatusCode(StatusCode::PinPolicyViolation, None))
    ));
}

#[test]
fn longest_pin_is_set() {
    let (secret, pin) = (secret(), Pin::new(&"x".repeat(63)));
    let set = SetNewPin::new(&info(&[1]), &secret, &pin).unwrap();
    let request = ClientPINSubCommand::<Plus>::as_client_pin(&set).unwrap();
    let mut expected = vec![b'x' + 1; 63];
    expected.push(1);
    assert_eq!(request.new_pin_enc, Some(expected));
    assert!(request.pin_hash_enc.is_none());
}

fn backend_error(r: Result<ClientPIN, CommandError>) -> String {
    match r {
        Err(CommandError::Crypto(CryptoError::Backend(e))) => e.0,
        _ => panic!("no backend error"),
    }
}

#[test]
fn backend_failures_are_reported() {
    let (secret, pin) = (secret(), Pin::new("1234"));
    let token = GetPinToken::new(&info(&[1]), &secret, &pin).unwrap();
    assert_eq!(backend_error(ClientPINSubCommand::<Short>::as_client_pin(&token)), "short");
    let set = SetNewPin::new(&info(&[1]), &secret, &pin).unwrap();
    assert_eq!(backend_error(ClientPINSubCommand::<Short>::as_client_pin(&set)), "authenticate");
    let change = ChangeExistingPin::new(&info(&[1]), &secret, &pin, &pin).unwrap();
    assert_eq!(backend_error(ClientPINSubCommand::<Short>::as_client_pin(&change)), "short");
    assert!(matches!(
        RequestCtap2::<Short>::wire_format(&token),
        Err(HIDError::Command(CommandError::Crypto(_)))
    ));
}

#[test]
fn what_changing_a_pin_authenticates() {
    assert_eq!(ChangeExistingPin::authenticated(&[1, 2], &[3]), vec![1, 2, 3]);
}

#[test]
fn requests_from_given_ciphertexts() {
    let (secret, pin) = (secret(), Pin::new("1234"));
    let set = SetNewPin::new(&info(&[1]), &secret, &pin).unwrap();
    let request = set.request(vec![7, 8], PinAuth::from_digest(&[3u8; 16]));
    let expected = map(vec![
        (1, Value::Integer(1)),
        (2, Value::Integer(3)),
        (3, public_value()),
        (4, Value::Bytes(vec![3u8; 16])),
        (5, Value::Bytes(vec![7, 8])),
    ]);
    assert_eq!(request.serialize().unwrap(), expected);
}

#[test]
fn requests_are_told_apart() {
    let requests = [
        ClientPIN::default(),
        ClientPIN { pin_protocol: Some(1), ..ClientPIN::default() },
        ClientPIN { pin_protocol: Some(2), ..ClientPIN::default() },
        ClientPIN { subcommand: PINSubcommand::SetPIN, ..ClientPIN::default() },
        ClientPIN { new_pin_enc: Some(vec![]), ..ClientPIN::default() },
        ClientPIN { pin_hash_enc: Some(vec![]), ..ClientPIN::default() },
        ClientPIN { pin_auth: Some(PinAuth::empty_pin_auth()), ..ClientPIN::default() },
        ClientPIN { key_agreement: Some(COSEKey::new(vec![0x40]).unwrap()), ..ClientPIN::default() },
    ];
    for (i, a) in requests.iter().enumerate() {
        for (j, b) in requests.iter().enumerate() {
            assert_eq!(a.serialize().unwrap() == b.serialize().unwrap(), i == j);
        }
    }
}

#[test]
fn keys_are_one_value() {
    assert_eq!(COSEKey::new(PUBLIC.to_vec()).unwrap().clone().encoded(), PUBLIC);
    for bytes in [&[][..], &[0xa1, 0x01][..], &[0x01, 0x02][..], &[0xff][..], &[0xa5][..]] {
        assert!(COSEKey::new(bytes.to_vec()).is_err());
    }
    // neither a map nor of definite length, but one value all the same
    assert!(COSEKey::new(vec![0x9f, 0x01, 0xf4, 0xff]).is_ok());
}

#[test]
fn requests_are_one_value() {
    let (secret, pin) = (secret(), Pin::new("1234"));
    let change = ChangeExistingPin::new(&info(&[1]), &secret, &pin, &pin).unwrap();
    let wire = RequestCtap2::<Plus>::wire_format(&change).unwrap();
    assert!(serde_cbor::from_slice::<Value>(&wire).is_ok());
    assert!(COSEKey::new(wire).is_ok());
}

#[test]
fn changing_a_pin_sends_what_others_send() {
    let (secret, old, new) = (secret(), Pin::new("1234"), Pin::new("4711"));
    let set = SetNewPin::new(&info(&[1]), &secret, &new).unwrap();
    let token = GetPinToken::new(&info(&[1]), &secret, &old).unwrap();
    let change = ChangeExistingPin::new(&info(&[1]), &secret, &old, &new).unwrap();
    let a = ClientPINSubCommand::<Plus>::as_client_pin(&set).unwrap();
    let b = ClientPINSubCommand::<Plus>::as_client_pin(&token).unwrap();
    let c = ClientPINSubCommand::<Plus>::as_client_pin(&change).unwrap();
    assert_eq!(c.new_pin_enc, a.new_pin_enc);
    assert_eq!(c.pin_hash_enc, b.pin_hash_enc);
    assert_eq!((c.pin_protocol, c.pin_protocol), (a.pin_protocol, b.pin_protocol));
    let key = c.key_agreement.unwrap();
    assert_eq!(key.encoded(), a.key_agreement.unwrap().encoded());
    assert_eq!(key.encoded(), b.key_agreement.unwrap().encoded());
}

#[test]
fn setting_a_pin_does_not_tell_zeros() {
    let (secret, p, q) = (secret(), Pin::new("1234"), Pin::new("1234\u{0}"));
    let p = SetNewPin::new(&info(&[1]), &secret, &p).unwrap();
    let q = SetNewPin::new(&info(&[1]), &secret, &q).unwrap();
    let a = ClientPINSubCommand::<Plus>::as_client_pin(&p).unwrap();
    let b = ClientPINSubCommand::<Plus>::as_client_pin(&q).unwrap();
    assert_eq!(a.new_pin_enc, b.new_pin_enc);
    assert_eq!(a.pin_auth.unwrap().as_ref(), b.pin_auth.unwrap().as_ref());
}

#[test]
fn plain_values_are_values() {
    for bytes in [
        &[0xf4][..],
        &[0xf5][..],
        &[0xf6][..],
        &[0xf7][..],
        &[0x82, 0xf6, 0x81, 0x20][..],
        &[0x80][..],
        &[0xa1, 0x20, 0x82, 0x41, 0x00, 0xa0][..],
        &[0xc1, 0x83, 0xf4, 0xf5, 0xc2, 0x01][..],
    ] {
        assert!(COSEKey::new(bytes.to_vec()).is_ok());
        // nothing is a value and goes on behind its end
        assert!(COSEKey::new([bytes, &[0x00][..]].concat()).is_err());
        assert!(COSEKey::new(bytes[..bytes.len() - 1].to_vec()).is_err());
    }
    for bytes in [&[0xf8, 0x14][..], &[0xf3][..], &[0x82, 0xf6][..], &[0xf8, 0x16][..]] {
        assert!(COSEKey::new(bytes.to_vec()).is_err());
    }
}
