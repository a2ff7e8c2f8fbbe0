use client_pin::cbor::{read_map_head, read_tags};
use client_pin::crypto::{BackendError, COSEKey, CryptoBackend, CryptoError, ECDHSecret};
use client_pin::response::Reading;
use client_pin::wire::response_payload;
use client_pin::{AuthenticatorInfo, ClientPINSubCommand, ClientPinResponse, Pin};
use client_pin::{ChangeExistingPin, GetKeyAgreement, GetPinToken, GetRetries, SetNewPin};
use client_pin::{CommandError, DecodeError, HIDError, RequestCtap2, ResponseField, StatusCode};
use serde_cbor::Value;
use std::collections::BTreeMap;

/// Decryption takes one off each byte; a key is a map, and agreeing on a secret gives the key.
struct Plus;

impl CryptoBackend for Plus {
    fn encrypt(_key: &[u8], data: &[u8]) -> Result<Vec<u8>, BackendError> {
        Ok(data.iter().map(|b| b.wrapping_add(1)).collect())
    }

    fn decrypt(key: &[u8], data: &[u8]) -> Result<Vec<u8>, BackendError> {
        assert_eq!(key, [0x11, 0x22]);
        if data.is_empty() {
            return Err(BackendError(String::from("nothing to decrypt")));
        }
        Ok(data.iter().map(|b| b.wrapping_sub(1)).collect())
    }

    fn authenticate(_key: &[u8], _data: &[u8]) -> Result<[u8; 32], BackendError> {
        Ok([0u8; 32])
    }

    fn encapsulate(peer: &COSEKey) -> Result<ECDHSecret, BackendError> {
        if peer.encoded() == [0xa0] {
            return Err(BackendError(String::from("no point")));
        }
        Ok(ECDHSecret::new(COSEKey::new(vec![0xa0]).unwrap(), peer.encoded().to_vec()))
    }

    fn parse_key(item: &[u8]) -> Result<COSEKey, serde_cbor::Error> {
        serde_cbor::from_slice::<BTreeMap<i32, Value>>(item)?;
        COSEKey::new(item.to_vec())
    }
}

fn read(input: &[u8]) -> Result<ClientPinResponse, DecodeError> {
    ClientPinResponse::deserialize::<Plus>(input)
}

fn secret() -> ECDHSecret {
    ECDHSecret::new(COSEKey::new(vec![0xa0]).unwrap(), vec![0x11, 0x22])
}

fn info() -> AuthenticatorInfo {
    AuthenticatorInfo { pin_protocols: vec![1] }
}

#[test]
fn empty_map_has_no_fields() {
    let response = read(&[0xa0]).unwrap();
    assert!(response.key_agreement.is_none());
    assert!(response.pin_token.is_none());
    assert!(response.retries.is_none());
}

#[test]
fn all_fields_are_read() {
    let response = read(&[0xa3, 0x01, 0xa1, 0x01, 0x02, 0x02, 0x42, 0x09, 0x08, 0x03, 0x05]).unwrap();
    assert_eq!(response.key_agreement.unwrap().encoded(), &[0xa1u8, 0x01, 0x02][..]);
    assert_eq!(response.pin_token.unwrap().as_ref(), &[9u8, 8][..]);
    assert_eq!(response.retries, Some(5));
}

#[test]
fn fields_come_in_any_order() {
    let response = read(&[0xa3, 0x03, 0x18, 0xff, 0x01, 0xa0, 0x02, 0x40]).unwrap();
    assert_eq!(response.key_agreement.unwrap().encoded(), &[0xa0u8][..]);
    assert_eq!(response.pin_token.unwrap().as_ref(), &[0u8; 0][..]);
    assert_eq!(response.retries, Some(255));
}

#[test]
fn keys_can_be_written_at_length() {
    assert_eq!(read(&[0xa1, 0x18, 0x03, 0x19, 0x00, 0x07]).unwrap().retries, Some(7));
    assert_eq!(read(&[0xa1, 0x1a, 0, 0, 0, 3, 0x05]).unwrap().retries, Some(5));
}

#[test]
fn answers_written_by_serde_cbor_are_read() {
    let mut key = BTreeMap::new();
    key.insert(Value::Integer(-2), Value::Bytes(vec![1; 32]));
    key.insert(Value::Integer(1), Value::Integer(2));
    let key = Value::Map(key);
    let mut map = BTreeMap::new();
    map.insert(1, key.clone());
    map.insert(2, Value::Bytes(vec![3; 300]));
    map.insert(3, Value::Integer(8));
    let response = read(&serde_cbor::to_vec(&map).unwrap()).unwrap();
    let encoded = serde_cbor::to_vec(&key).unwrap();
    assert_eq!(response.key_agreement.unwrap().encoded(), &encoded[..]);
    assert_eq!(response.pin_token.unwrap().as_ref(), &[3u8; 300][..]);
    assert_eq!(response.retries, Some(8));
}

#[test]
fn map_of_indefinite_length() {
    let response = read(&[0xbf, 0x03, 0x05, 0x02, 0x41, 0x07, 0xff]).unwrap();
    assert_eq!(response.retries, Some(5));
    assert_eq!(response.pin_token.unwrap().as_ref(), &[7u8][..]);
    assert!(matches!(read(&[0xbf, 0x03, 0x05]), Err(DecodeError::Cbor(_))));
    assert!(matches!(read(&[0xbf, 0xff, 0x00]), Err(DecodeError::TrailingData)));
}

#[test]
fn tags_are_skipped() {
    assert_eq!(read(&[0xd9, 0xd9, 0xf7, 0xc1, 0xa1, 0x03, 0x05]).unwrap().retries, Some(5));
    assert_eq!(read(&[0xa1, 0xc2, 0x03, 0xc3, 0x05]).unwrap().retries, Some(5));
}

#[test]
fn tokens_of_other_forms() {
    // a byte string in chunks, a text, an array of numbers
    for payload in [
        &[0xa1, 0x02, 0x5f, 0x41, 0x61, 0x41, 0x62, 0xff][..],
        &[0xa1, 0x02, 0x62, 0x61, 0x62][..],
        &[0xa1, 0x02, 0x82, 0x18, 0x61, 0x18, 0x62][..],
    ] {
        assert_eq!(read(payload).unwrap().pin_token.unwrap().as_ref(), b"ab");
    }
    assert!(matches!(read(&[0xa1, 0x02, 0x05]), Err(DecodeError::Cbor(_))));
    assert!(matches!(read(&[0xa1, 0x02, 0x42, 0x61]), Err(DecodeError::Cbor(_))));
}

#[test]
fn nulls_stand_for_absent_fields() {
    let response = read(&[0xa4, 0x01, 0xf6, 0x02, 0xf6, 0x01, 0xa0, 0x02, 0x41, 0x01]).unwrap();
    assert_eq!(response.key_agreement.unwrap().encoded(), &[0xa0u8][..]);
    assert_eq!(response.pin_token.unwrap().as_ref(), &[1u8][..]);
    assert!(matches!(read(&[0xa1, 0x03, 0xf6]), Err(DecodeError::Cbor(_))));
}

#[test]
fn duplicates_are_refused() {
    assert!(matches!(
        read(&[0xa2, 0x01, 0xa0, 0x01, 0xa0]),
        Err(DecodeError::DuplicateField(ResponseField::KeyAgreement))
    ));
    assert!(matches!(
        read(&[0xa2, 0x02, 0x40, 0x02, 0xf6]),
        Err(DecodeError::DuplicateField(ResponseField::PinToken))
    ));
    // the second value is not looked at
    assert!(matches!(
        read(&[0xa2, 0x03, 0x05, 0x03, 0xff]),
        Err(DecodeError::DuplicateField(ResponseField::Retries))
    ));
    assert_eq!(ResponseField::KeyAgreement.name(), "key_agreement");
    assert_eq!(ResponseField::PinToken.name(), "pin_token");
    assert_eq!(ResponseField::Retries.name(), "retries");
}

#[test]
fn unknown_keys_are_refused() {
    assert!(matches!(read(&[0xa1, 0x04, 0x05]), Err(DecodeError::UnexpectedKey(4))));
    assert!(matches!(read(&[0xa1, 0x00, 0x05]), Err(DecodeError::UnexpectedKey(0))));
    assert!(matches!(read(&[0xa1, 0x20, 0x05]), Err(DecodeError::UnexpectedKey(-1))));
    assert!(matches!(
        read(&[0xa1, 0x3a, 0x7f, 0xff, 0xff, 0xff, 0x05]),
        Err(DecodeError::UnexpectedKey(i32::MIN))
    ));
    assert!(matches!(
        read(&[0xa1, 0x1a, 0x80, 0x00, 0x00, 0x00, 0x05]),
        Err(DecodeError::Cbor(_))
    ));
    assert!(matches!(
        read(&[0xa1, 0x3a, 0x80, 0x00, 0x00, 0x00, 0x05]),
        Err(DecodeError::Cbor(_))
    ));
    assert!(matches!(read(&[0xa1, 0x61, 0x61, 0x05]), Err(DecodeError::Cbor(_))));
}

#[test]
fn retries_are_one_byte() {
    assert!(matches!(read(&[0xa1, 0x03, 0x19, 0x01, 0x00]), Err(DecodeError::Cbor(_))));
    assert!(matches!(read(&[0xa1, 0x03, 0x20]), Err(DecodeError::Cbor(_))));
    assert!(matches!(read(&[0xa1, 0x03]), Err(DecodeError::Cbor(_))));
}

#[test]
fn bad_keys_are_refused() {
    assert!(matches!(read(&[0xa2, 0x01, 0x05, 0x04, 0x00]), Err(DecodeError::Cbor(_))));
    assert!(matches!(read(&[0xa1, 0x01]), Err(DecodeError::Cbor(_))));
}

#[test]
fn only_maps_are_answers() {
    for input in [&[][..], &[0x05][..], &[0x80][..], &[0x41, 0x00][..], &[0xb8][..], &[0xc1][..]] {
        assert!(matches!(read(input), Err(DecodeError::NotAMap)));
    }
    assert!(matches!(read(&[0xa1, 0x03, 0x05, 0x00]), Err(DecodeError::TrailingData)));
}

#[test]
fn map_heads() {
    let count = |input: &[u8]| read_map_head(input).map(|head| (head.count, head.len));
    assert_eq!(count(&[0xb7]), Some((Some(23), 1)));
    assert_eq!(count(&[0xb8, 0x20]), Some((Some(32), 2)));
    assert_eq!(count(&[0xb9, 0x01, 0x02, 0x03]), Some((Some(258), 3)));
    assert_eq!(count(&[0xba, 0x01, 0x00, 0x00, 0x00]), Some((Some(1 << 24), 5)));
    assert_eq!(count(&[0xbb, 0xff, 255, 255, 255, 255, 255, 255, 255]), Some((Some(u64::MAX), 9)));
    assert_eq!(count(&[0xbc]), None);
    assert_eq!(count(&[0xbf, 0xff]), Some((None, 1)));
    assert_eq!(count(&[0xd8, 0x20, 0xbf]), None);
}

#[test]
fn reading_stops_at_a_key_and_goes_on() {
    let input = [0xa2, 0x01, 0xa1, 0x01, 0x02, 0x03, 0x05];
    match ClientPinResponse::start(&input).unwrap() {
        Reading::Key { so_far, from, to, left, room } => {
            assert_eq!((from, to, left, room), (2, 5, Some(1), 126));
            let key = COSEKey::new(vec![0x05]).unwrap();
            let response = so_far.resume(key, &input, to, left, room).unwrap();
            assert_eq!(response.key_agreement.unwrap().encoded(), &[0x05u8][..]);
            assert_eq!(response.retries, Some(5));
        }
        Reading::Done(_) => panic!("no key"),
    }
    assert!(matches!(ClientPinResponse::start(&input[..1]), Err(DecodeError::Cbor(_))));
}

#[test]
fn retries_arrive() {
    let command = GetRetries::new();
    let r = RequestCtap2::<Plus>::handle_response_ctap2(&command, &[0x00, 0xa1, 0x03, 0x08]);
    assert_eq!(r.unwrap(), 8);
    assert!(matches!(
        ClientPINSubCommand::<Plus>::parse_response_payload(&command, &[0xa0]),
        Err(CommandError::MissingRequiredField("retries"))
    ));
}

#[test]
fn key_agreement_arrives() {
    let command = GetKeyAgreement::new(&info()).unwrap();
    let payload = [0xa1, 0x01, 0xa1, 0x01, 0x02];
    let key = ClientPINSubCommand::<Plus>::parse_response_payload(&command, &payload).unwrap();
    let secret = key.shared_secret::<Plus>().unwrap();
    assert_eq!(secret.shared_secret(), &[0xa1u8, 0x01, 0x02][..]);
    assert_eq!(secret.my_public_key().encoded(), &[0xa0u8][..]);
    assert!(matches!(
        ClientPINSubCommand::<Plus>::parse_response_payload(&command, &[0xa1, 0x03, 0x08]),
        Err(CommandError::MissingRequiredField("key_agreement"))
    ));
}

#[test]
fn failed_key_agreement_is_reported() {
    let command = GetKeyAgreement::new(&info()).unwrap();
    let key = ClientPINSubCommand::<Plus>::parse_response_payload(&command, &[0xa1, 0x01, 0xa0]);
    match key.unwrap().shared_secret::<Plus>() {
        Err(CommandError::Crypto(CryptoError::Backend(e))) => assert_eq!(e.0, "no point"),
        _ => panic!("agreed"),
    }
}

#[test]
fn pin_token_arrives() {
    let (secret, pin) = (secret(), Pin::new("1234"));
    let command = GetPinToken::new(&info(), &secret, &pin).unwrap();
    let answer = [0x00, 0xa1, 0x02, 0x43, 0x02, 0x03, 0x04];
    let token = RequestCtap2::<Plus>::handle_response_ctap2(&command, &answer).unwrap();
    assert_eq!(token.as_ref(), &[1u8, 2, 3][..]);
    assert!(matches!(
        ClientPINSubCommand::<Plus>::parse_response_payload(&command, &[0xa0]),
        Err(CommandError::MissingRequiredField("key_agreement"))
    ));
    assert!(matches!(
        ClientPINSubCommand::<Plus>::parse_response_payload(&command, &[0xa1, 0x02, 0x40]),
        Err(CommandError::Crypto(CryptoError::Backend(_)))
    ));
}

#[test]
fn set_and_change_ignore_the_payload() {
    let (secret, pin) = (secret(), Pin::new("1234"));
    let set = SetNewPin::new(&info(), &secret, &pin).unwrap();
    let change = ChangeExistingPin::new(&info(), &secret, &pin, &pin).unwrap();
    for answer in [&[0x00][..], &[0x00, 0x05][..], &[0x00, 0x82, 0x01, 0x02][..]] {
        assert!(RequestCtap2::<Plus>::handle_response_ctap2(&set, answer).is_ok());
        assert!(RequestCtap2::<Plus>::handle_response_ctap2(&change, answer).is_ok());
    }
    for answer in [&[0x00, 0x05, 0x05][..], &[0x00, 0x82, 0x01][..], &[0x00, 0xff][..]] {
        assert!(matches!(
            RequestCtap2::<Plus>::handle_response_ctap2(&set, answer),
            Err(HIDError::Command(CommandError::Deserializing(DecodeError::Cbor(_))))
        ));
        assert!(matches!(
            RequestCtap2::<Plus>::handle_response_ctap2(&change, answer),
            Err(HIDError::Command(CommandError::Deserializing(DecodeError::Cbor(_))))
        ));
    }
}

#[test]
fn payloads_must_be_one_value() {
    let command = GetRetries::new();
    for payload in [&[][..], &[0xa1, 0x03, 0x05, 0x00][..], &[0xa1, 0x03][..]] {
        assert!(matches!(
            ClientPINSubCommand::<Plus>::parse_response_payload(&command, payload),
            Err(CommandError::Deserializing(DecodeError::Cbor(_)))
        ));
    }
    assert!(matches!(
        ClientPINSubCommand::<Plus>::parse_response_payload(&command, &[0x05]),
        Err(CommandError::Deserializing(DecodeError::NotAMap))
    ));
    assert!(matches!(
        ClientPINSubCommand::<Plus>::parse_response_payload(&command, &[0xa1, 0x09, 0x05]),
        Err(CommandError::Deserializing(DecodeError::UnexpectedKey(9)))
    ));
}

#[test]
fn empty_answers_are_too_small() {
    assert!(matches!(
        RequestCtap2::<Plus>::handle_response_ctap2(&GetRetries::new(), &[]),
        Err(HIDError::Command(CommandError::InputTooSmall))
    ));
}

#[test]
fn refusals_carry_their_status() {
    let command = GetRetries::new();
    assert!(matches!(
        RequestCtap2::<Plus>::handle_response_ctap2(&command, &[0x37]),
        Err(HIDError::Command(CommandError::StatusCode(StatusCode::PinPolicyViolation, None)))
    ));
    match RequestCtap2::<Plus>::handle_response_ctap2(&command, &[0x31, 0xa1, 0x03, 0x05]) {
        Err(HIDError::Command(CommandError::StatusCode(StatusCode::Other(0x31), Some(data)))) => {
            assert_eq!(data, vec![0xa1, 0x03, 0x05]);
        }
        _ => panic!("not refused"),
    }
    assert!(matches!(
        RequestCtap2::<Plus>::handle_response_ctap2(&command, &[0x31, 0xa1]),
        Err(HIDError::Command(CommandError::Deserializing(DecodeError::Cbor(_))))
    ));
}

#[test]
fn payload_of_an_answer() {
    assert_eq!(response_payload(&[0x00, 0x01, 0x02]).unwrap(), &[1u8, 2][..]);
    assert_eq!(response_payload(&[0x00]).unwrap(), &[0u8; 0][..]);
    assert!(response_payload(&[0x01]).is_err());
}

#[test]
fn status_codes() {
    assert!(StatusCode::from(0x00).is_ok());
    assert_eq!(StatusCode::from(0x37), StatusCode::PinPolicyViolation);
    assert_eq!(StatusCode::from(0x36), StatusCode::Other(0x36));
    assert!(!StatusCode::from(0x37).is_ok());
    assert!(!StatusCode::from(0x7f).is_ok());
}

#[test]
fn decode_error_messages() {
    let message = |input: &[u8]| read(input).err().unwrap().message();
    assert_eq!(
        message(&[0xa2, 0x02, 0x40, 0x02, 0x40]),
        Some(String::from("duplicate field `pin_token`"))
    );
    assert_eq!(message(&[0xa1, 0x04, 0x00]), Some(String::from("unexpected key: 4")));
    assert_eq!(
        message(&[0xa1, 0x3a, 0x7f, 0xff, 0xff, 0xff, 0x00]),
        Some(format!("unexpected key: {:?}", i32::MIN))
    );
    assert_eq!(message(&[0x05]), None);
    assert_eq!(message(&[0xa1, 0x03]), None);
}

#[test]
fn counted_and_streamed_answers_read_the_same() {
    let entries = [0x01, 0xa1, 0x01, 0x02, 0x02, 0x41, 0x07, 0x03, 0x05];
    let mut counted = vec![0xa3u8];
    counted.extend_from_slice(&entries);
    let mut streamed = vec![0xbfu8];
    streamed.extend_from_slice(&entries);
    streamed.push(0xff);
    for input in [counted, streamed] {
        let response = read(&input).unwrap();
        assert_eq!(response.key_agreement.unwrap().encoded(), &[0xa1u8, 0x01, 0x02][..]);
        assert_eq!(response.pin_token.unwrap().as_ref(), &[7u8][..]);
        assert_eq!(response.retries, Some(5));
    }
}

#[test]
fn tags_take_levels() {
    assert_eq!(read_tags(&[0xc1, 0xd8, 0x20, 0xa0], 127), Some((3, 125)));
    assert_eq!(read_tags(&[0xa0], 0), Some((0, 0)));
    assert_eq!(read_tags(&[0xc1, 0xa0], 0), None);
    assert_eq!(read_tags(&[0xd8], 5), Some((0, 5)));
}

/// The bytes `item` behind `levels` tags.
fn tagged(levels: usize, item: &[u8]) -> Vec<u8> {
    let mut bytes = vec![0xc0u8; levels];
    bytes.extend_from_slice(item);
    bytes
}

/// Whether `serde_cbor` reads the whole of `input` as one value.
fn is_value(input: &[u8]) -> bool {
    serde_cbor::from_slice::<Value>(input).is_ok()
}

#[test]
fn answers_go_as_deep_as_serde_cbor_reads() {
    for levels in [0, 1, 125, 126, 127, 128, 200] {
        for map in [&[0xa0][..], &[0xbf, 0xff][..], &[0xa1, 0x03, 0x05][..]] {
            let input = tagged(levels, map);
            assert_eq!(read(&input).is_ok(), is_value(&input));
            assert_eq!(read(&input).is_ok(), levels <= 126);
        }
    }
    assert!(matches!(read(&tagged(127, &[0xa0])), Err(DecodeError::TooDeep)));
    assert!(matches!(read(&tagged(200, &[0xa0])), Err(DecodeError::TooDeep)));
    assert!(matches!(read(&tagged(200, &[0xa1, 0x09, 0x00])), Err(DecodeError::TooDeep)));
    assert!(matches!(read(&tagged(127, &[0x05])), Err(DecodeError::NotAMap)));
}

#[test]
fn items_go_as_deep_as_serde_cbor_reads() {
    for before in [0, 3, 60] {
        for levels in [0, 1, 62, 64, 65, 66, 67, 122, 123, 124, 125, 126, 127] {
            // a tagged key, tagged retries, tagged bytes, a tagged array of bytes, an array with a
            // tagged byte, a tagged key agreement, a key agreement with something tagged in it
            let entries = [
                [tagged(levels, &[0x03]), vec![0x05]].concat(),
                [vec![0x03], tagged(levels, &[0x05])].concat(),
                [vec![0x02], tagged(levels, &[0x41, 0x07])].concat(),
                [vec![0x02], tagged(levels, &[0x81, 0x07])].concat(),
                [vec![0x02, 0x81], tagged(levels, &[0x07])].concat(),
                [vec![0x01], tagged(levels, &[0xa0])].concat(),
                [vec![0x01, 0xa1, 0x01], tagged(levels, &[0x07])].concat(),
            ];
            for entry in entries {
                let input = tagged(before, &[vec![0xa1], entry].concat());
                assert_eq!(read(&input).is_ok(), is_value(&input));
            }
        }
    }
    let deep = [vec![0xa2, 0x02, 0x81], tagged(126, &[0x07]), vec![0x09, 0x00]].concat();
    assert!(matches!(read(&deep), Err(DecodeError::Cbor(_))));
    let deep = [vec![0xa2, 0x03], tagged(127, &[0x07]), vec![0x09, 0x00]].concat();
    assert!(matches!(read(&deep), Err(DecodeError::TooDeep)));
}

#[test]
fn order_of_entries_does_not_matter() {
    let (key, token, retries) = (&[0x01, 0xa1, 0x01, 0x02][..], &[0x02, 0x41, 0x07][..], &[0x03, 0x05][..]);
    for entries in [
        [key, token, retries],
        [key, retries, token],
        [token, key, retries],
        [token, retries, key],
        [retries, key, token],
        [retries, token, key],
    ] {
        let counted = [&[0xa3][..], &entries.concat()[..]].concat();
        let streamed = [&[0xbf][..], &entries.concat()[..], &[0xff][..]].concat();
        for input in [counted, streamed] {
            let response = read(&input).unwrap();
            assert_eq!(response.key_agreement.unwrap().encoded(), &[0xa1u8, 0x01, 0x02][..]);
            assert_eq!(response.pin_token.unwrap().as_ref(), &[7u8][..]);
            assert_eq!(response.retries, Some(5));
        }
    }
}

#[test]
fn nulls_count_as_absent_at_the_commands() {
    let (secret, pin) = (secret(), Pin::new("1234"));
    let retries = GetRetries::new();
    let payload = [0x00, 0xa3, 0x01, 0xf6, 0x02, 0xf6, 0x03, 0x08];
    assert_eq!(RequestCtap2::<Plus>::handle_response_ctap2(&retries, &payload).unwrap(), 8);
    let key = GetKeyAgreement::new(&info()).unwrap();
    assert!(matches!(
        RequestCtap2::<Plus>::handle_response_ctap2(&key, &payload),
        Err(HIDError::Command(CommandError::MissingRequiredField("key_agreement")))
    ));
    let token = GetPinToken::new(&info(), &secret, &pin).unwrap();
    assert!(matches!(
        RequestCtap2::<Plus>::handle_response_ctap2(&token, &payload),
        Err(HIDError::Command(CommandError::MissingRequiredField("key_agreement")))
    ));
    assert!(matches!(
        RequestCtap2::<Plus>::handle_response_ctap2(&retries, &[0x00, 0xa1, 0x03, 0xf6]),
        Err(HIDError::Command(CommandError::Deserializing(DecodeError::Cbor(_))))
    ));
}
