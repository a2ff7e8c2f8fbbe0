use client_pin::crypto::{BackendError, COSEKey, CryptoBackend, CryptoError, ECDHSecret};
use client_pin::{Pin, PinAuth, PinError};
use client_pin::{ClientPINSubCommand, GetPinToken, AuthenticatorInfo, PinToken};

struct Xor;

impl CryptoBackend for Xor {
    fn encrypt(key: &[u8], data: &[u8]) -> Result<Vec<u8>, BackendError> {
        Ok(data.iter().enumerate().map(|(i, b)| b ^ key[i % key.len()]).collect())
    }

    fn decrypt(key: &[u8], data: &[u8]) -> Result<Vec<u8>, BackendError> {
        Xor::encrypt(key, data)
    }

    fn authenticate(key: &[u8], data: &[u8]) -> Result<[u8; 32], BackendError> {
        let mut code = [0u8; 32];
        for (i, b) in key.iter().chain(data.iter()).enumerate() {
            code[i % 32] = code[i % 32].wrapping_mul(31).wrapping_add(*b);
        }
        Ok(code)
    }

    fn encapsulate(peer: &COSEKey) -> Result<ECDHSecret, BackendError> {
        Ok(ECDHSecret::new(COSEKey::new(vec![0xa0]).unwrap(), peer.encoded().to_vec()))
    }

    fn parse_key(item: &[u8]) -> Result<COSEKey, serde_cbor::Error> {
        COSEKey::new(item.to_vec())
    }
}

struct Broken;

impl CryptoBackend for Broken {
    fn encrypt(_key: &[u8], _data: &[u8]) -> Result<Vec<u8>, BackendError> {
        Err(BackendError(String::from("no cipher")))
    }

    fn decrypt(_key: &[u8], _data: &[u8]) -> Result<Vec<u8>, BackendError> {
        Err(BackendError(String::from("no cipher")))
    }

    fn authenticate(_key: &[u8], _data: &[u8]) -> Result<[u8; 32], BackendError> {
        Err(BackendError(String::from("no mac")))
    }

    fn encapsulate(_peer: &COSEKey) -> Result<ECDHSecret, BackendError> {
        Err(BackendError(String::from("no curve")))
    }

    fn parse_key(item: &[u8]) -> Result<COSEKey, serde_cbor::Error> {
        COSEKey::new(item.to_vec())
    }
}

const HASH_OF_1234: [u8; 16] = [
    0x03, 0xac, 0x67, 0x42, 0x16, 0xf3, 0xe1, 0x5c, 0x76, 0x1e, 0xe1, 0xa5, 0xe2, 0x55, 0xf0, 0x67,
];

#[test]
fn pin_hash_is_the_left_half_of_sha_256() {
    assert_eq!(Pin::new("1234").for_pin_token().as_ref(), &HASH_OF_1234[..]);
}

#[test]
fn pin_hash_of_the_empty_pin() {
    let expected = [
        0xe3u8, 0xb0, 0xc4, 0x42, 0x98, 0xfc, 0x1c, 0x14, 0x9a, 0xfb, 0xf4, 0xc8, 0x99, 0x6f, 0xb9,
        0x24,
    ];
    assert_eq!(Pin::new("").for_pin_token().as_ref(), &expected[..]);
}

#[test]
fn pin_bytes_are_utf_8() {
    assert_eq!(Pin::new("12\u{e9}").as_bytes(), &[0x31u8, 0x32, 0xc3, 0xa9][..]);
}

#[test]
fn pin_is_not_shown() {
    assert_eq!(Pin::new("1234").debug_text(), "Pin(redacted)");
    assert_eq!(Pin::new("secret").clone().debug_text(), "Pin(redacted)");
}

#[test]
fn block_is_padded_with_zeros() {
    let block = Pin::new("1234").block().unwrap();
    assert_eq!(block.len(), 64);
    assert_eq!(&block[..4], b"1234");
    assert!(block[4..].iter().all(|b| *b == 0));
}

#[test]
fn block_of_the_longest_pin() {
    let pin = "x".repeat(63);
    let block = Pin::new(&pin).block().unwrap();
    assert_eq!(&block[..63], pin.as_bytes());
    assert_eq!(block[63], 0);
}

#[test]
fn longer_pins_have_no_block() {
    assert!(Pin::new(&"x".repeat(64)).block().is_none());
    // 32 characters of two bytes each
    assert!(Pin::new(&"\u{e9}".repeat(32)).block().is_none());
    assert!(Pin::new(&"\u{e9}".repeat(31)).block().is_some());
}

#[test]
fn blocks_tell_pins_apart_unless_they_end_in_zero() {
    assert_ne!(Pin::new("1234").block(), Pin::new("12345").block());
    assert_eq!(Pin::new("1234").block(), Pin::new("1234\u{0}").block());
}

#[test]
fn empty_pin_auth_is_empty() {
    assert!(PinAuth::empty_pin_auth().as_ref().is_empty());
    assert_eq!(PinAuth::empty_pin_auth().serialize().unwrap(), vec![0x40]);
}

#[test]
fn pin_auth_is_a_byte_string() {
    let auth = PinAuth::from_digest(&[7u8; 32]);
    assert_eq!(auth.as_ref(), &[7u8; 16][..]);
    let mut expected = vec![0x50u8];
    expected.extend_from_slice(&[7u8; 16]);
    assert_eq!(auth.clone().serialize().unwrap(), expected);
}

fn token(bytes: &[u8]) -> PinToken {
    let secret = ECDHSecret::new(COSEKey::new(vec![0xa0]).unwrap(), vec![0x5a; 16]);
    let pin = Pin::new("1234");
    let info = AuthenticatorInfo { pin_protocols: vec![1] };
    let command = GetPinToken::new(&info, &secret, &pin).unwrap();
    let encrypted = Xor::encrypt(&[0x5a; 16], bytes).unwrap();
    let mut payload = vec![0xa1u8, 0x02];
    payload.extend(serde_cbor::to_vec(&serde_bytes::ByteBuf::from(encrypted)).unwrap());
    ClientPINSubCommand::<Xor>::parse_response_payload(&command, &payload).unwrap()
}

#[test]
fn auth_is_the_left_half_of_the_code() {
    let token = token(&[1, 2, 3, 4]);
    assert_eq!(token.as_ref(), &[1u8, 2, 3, 4][..]);
    let code = Xor::authenticate(&[1, 2, 3, 4], b"payload").unwrap();
    let auth = token.auth::<Xor>(b"payload").unwrap();
    assert_eq!(auth.as_ref(), &code[..16]);
    assert_eq!(auth.as_ref().len(), 16);
}

#[test]
fn auth_reports_the_backend() {
    match token(&[1]).auth::<Broken>(b"payload") {
        Err(CryptoError::Backend(e)) => assert_eq!(e.0, "no mac"),
        Ok(_) => panic!("authenticated"),
    }
}

#[test]
fn pin_error_messages() {
    assert_eq!(PinError::PinRequired.to_string(), "PinError: Pin required.");
    assert_eq!(PinError::PinIsTooShort.to_string(), "PinError: pin is too short");
    assert_eq!(PinError::PinIsTooLong(64).to_string(), "PinError: pin is too long (64)");
    assert_eq!(
        PinError::PinIsTooLong(usize::MAX).to_string(),
        format!("PinError: pin is too long ({})", usize::MAX)
    );
    assert_eq!(PinError::PinIsTooLong(0).to_string(), "PinError: pin is too long (0)");
    assert_eq!(PinError::InvalidKeyLen.to_string(), "PinError: invalid key len");
    assert_eq!(PinError::InvalidPin(None).to_string(), "PinError: Invalid Pin.");
    assert_eq!(
        PinError::InvalidPin(Some(7)).to_string(),
        "PinError: Invalid Pin. Retries left: 7"
    );
    assert_eq!(
        PinError::InvalidPin(Some(100)).to_string(),
        "PinError: Invalid Pin. Retries left: 100"
    );
    assert_eq!(
        PinError::PinAuthBlocked.to_string(),
        "PinError: Pin authentication blocked. Device needs power cycle."
    );
    assert_eq!(
        PinError::PinBlocked.to_string(),
        "PinError: No retries left. Pin blocked. Device needs reset."
    );
    let backend = PinError::from(BackendError(String::from("Key")));
    assert_eq!(backend.clone().to_string(), "PinError: Crypto backend error: Key");
}
