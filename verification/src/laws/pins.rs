//! Laws of PINs: what their bytes, their hashes and their blocks are, and what a code is.

use vstd::prelude::*;

use crate::crypto::{self, BackendError, CryptoBackend, CryptoError};
use crate::pin::{self, Pin, PinAuth, PinError};
use crate::text;

verus! {

/// The bytes of a PIN are the whole UTF-8 encoding of its characters: decoding them gives the PIN
/// again.
pub proof fn law_bytes_are_the_whole_pin(p: Pin)
    ensures
        p.bytes() == vstd::utf8::encode_utf8(p@),
        vstd::utf8::valid_utf8(p.bytes()),
        vstd::utf8::decode_utf8(p.bytes()) == p@,
{
    vstd::utf8::encode_utf8_valid_utf8(p@);
    vstd::utf8::encode_utf8_decode_utf8(p@);
}

/// The bytes of a PIN of ASCII characters are its characters, one by one.
pub proof fn law_ascii_pins_are_their_characters(p: Pin)
    requires
        vstd::utf8::is_ascii_chars(p@),
    ensures
        p.bytes().len() == p@.len(),
        forall|i: int| 0 <= i < p@.len() ==> #[trigger] p.bytes()[i] == p@[i] as u8,
{
    vstd::utf8::is_ascii_chars_encode_utf8(p@);
}

/// Different PINs have different bytes.
pub proof fn law_bytes_tell_the_pin(p: Pin, q: Pin)
    requires
        p.bytes() == q.bytes(),
    ensures
        p@ == q@,
{
    law_bytes_are_the_whole_pin(p);
    law_bytes_are_the_whole_pin(q);
}

/// The hash of a PIN is the left 16 bytes of the SHA-256 digest of the whole of its UTF-8 bytes.
pub proof fn law_hash_is_of_the_whole_pin(p: Pin)
    ensures
        p.pin_hash() == crypto::sha256_digest(vstd::utf8::encode_utf8(p@)).subrange(0, 16),
{
}

/// PINs hash alike only where the left halves of the digests of all their bytes agree.
pub proof fn law_hashes_compare_as_digests(p: Pin, q: Pin)
    requires
        crypto::sha256_digest(vstd::utf8::encode_utf8(p@)).len() == 32,
        crypto::sha256_digest(vstd::utf8::encode_utf8(q@)).len() == 32,
    ensures
        p.pin_hash().len() == 16,
        p.pin_hash() == q.pin_hash() <==> (forall|i: int|
            0 <= i < 16 ==> crypto::sha256_digest(vstd::utf8::encode_utf8(p@))[i]
                == #[trigger] crypto::sha256_digest(vstd::utf8::encode_utf8(q@))[i]),
{
    let d = crypto::sha256_digest(vstd::utf8::encode_utf8(p@));
    let e = crypto::sha256_digest(vstd::utf8::encode_utf8(q@));
    if p.pin_hash() == q.pin_hash() {
        assert forall|i: int| 0 <= i < 16 implies d[i] == #[trigger] e[i] by {
            assert(d[i] == p.pin_hash()[i]);
            assert(e[i] == q.pin_hash()[i]);
        }
    }
    if forall|i: int| 0 <= i < 16 ==> d[i] == #[trigger] e[i] {
        assert(p.pin_hash() =~= q.pin_hash());
    }
}

/// What is kept of a digest or a code are its first 16 bytes, in their places, whatever they are.
pub proof fn law_left_half_is_the_left_half(digest: Seq<u8>)
    requires
        digest.len() >= 16,
    ensures
        pin::left16(digest).len() == 16,
        forall|i: int| 0 <= i < 16 ==> #[trigger] pin::left16(digest)[i] == digest[i],
{
}

/// What stands behind the first 16 bytes of a digest or a code does not show.
pub proof fn law_right_half_does_not_show(left: Seq<u8>, a: Seq<u8>, b: Seq<u8>)
    requires
        left.len() == 16,
    ensures
        pin::left16(left + a) == left,
        pin::left16(left + a) == pin::left16(left + b),
{
    assert(pin::left16(left + a) =~= left);
    assert(pin::left16(left + b) =~= left);
}

/// The block of a PIN is its bytes, each in its place, and zeros behind them up to 64 bytes.
pub proof fn law_block_is_pin_and_zeros(p: Seq<u8>)
    ensures
        pin::pin_block(p).len() == 64,
        forall|i: int| 0 <= i < 64 && i < p.len() ==> #[trigger] pin::pin_block(p)[i] == p[i],
        forall|i: int| p.len() <= i < 64 ==> #[trigger] pin::pin_block(p)[i] == 0,
{
}

/// Authenticating is one call of the backend with the token and the payload, both whole. Of the code
/// that comes back the first 16 bytes are kept; an error comes back as it is.
pub proof fn law_auth_is_one_call<B: CryptoBackend>(
    token: Seq<u8>,
    payload: Seq<u8>,
    r: Result<PinAuth, CryptoError>,
)
    requires
        pin::auth_outcome::<B>(token, payload, r),
    ensures
        r is Ok ==> r->Ok_0@.len() == 16,
        r is Ok ==> exists|key: &[u8], data: &[u8], code: [u8; 32]| #[trigger]
            call_ensures(B::authenticate, (key, data), Ok::<[u8; 32], BackendError>(code)) && key@
                == token && data@ == payload && r->Ok_0@ == code@.subrange(0, 16),
        r is Err ==> exists|key: &[u8], data: &[u8], e: BackendError| #[trigger]
            call_ensures(B::authenticate, (key, data), Err::<[u8; 32], BackendError>(e)) && key@
                == token && data@ == payload && r->Err_0 == CryptoError::Backend(e),
{
    let mac = choose|mac: Result<[u8; 32], BackendError>| #[trigger]
        crypto::authenticates::<B>(token, payload, mac) && match mac {
            Ok(code) => r is Ok && r->Ok_0@ == pin::left16(code@),
            Err(e) => r == Err::<PinAuth, CryptoError>(CryptoError::Backend(e)),
        };
    let (key, data) = choose|key: &[u8], data: &[u8]|
        key@ == token && data@ == payload && #[trigger] call_ensures(
            B::authenticate,
            (key, data),
            mac,
        );
    match mac {
        Ok(code) => {
            assert(call_ensures(B::authenticate, (key, data), Ok::<[u8; 32], BackendError>(code)));
        },
        Err(e) => {
            assert(call_ensures(B::authenticate, (key, data), Err::<[u8; 32], BackendError>(e)));
        },
    }
}

/// A number in base ten: its last digit behind the number without it, or the one digit that it is.
pub proof fn law_decimal_ends_in_its_last_digit(n: nat)
    ensures
        text::decimal(n).len() >= 1,
        text::decimal(n).last() as u32 == 48 + n % 10,
        n < 10 ==> text::decimal(n).len() == 1,
        n >= 10 ==> text::decimal(n).drop_last() == text::decimal(n / 10),
{
    if n >= 10 {
        assert(text::decimal(n).drop_last() =~= text::decimal(n / 10));
    }
}

/// Different numbers are spelled differently.
pub proof fn law_decimal_tells_the_number(a: nat, b: nat)
    requires
        text::decimal(a) == text::decimal(b),
    ensures
        a == b,
    decreases a,
{
    law_decimal_ends_in_its_last_digit(a);
    law_decimal_ends_in_its_last_digit(b);
    if a >= 10 && b >= 10 {
        law_decimal_tells_the_number(a / 10, b / 10);
    } else if a >= 10 {
        law_decimal_ends_in_its_last_digit(a / 10);
        assert(text::decimal(a).len() >= 2);
    } else if b >= 10 {
        law_decimal_ends_in_its_last_digit(b / 10);
        assert(text::decimal(b).len() >= 2);
    }
}

/// A message tells the number that its error carries, and the text of the backend.
pub proof fn law_messages_tell_their_numbers(a: usize, b: usize, m: u8, n: u8)
    ensures
        PinError::PinIsTooLong(a).message() == PinError::PinIsTooLong(b).message() ==> a == b,
        PinError::InvalidPin(Some(m)).message() == PinError::InvalidPin(Some(n)).message() ==> m
            == n,
        PinError::InvalidPin(Some(m)).message() != PinError::InvalidPin(None).message(),
{
    let head = "PinError: pin is too long ("@;
    let x = PinError::PinIsTooLong(a).message();
    let y = PinError::PinIsTooLong(b).message();
    reveal_strlit(")");
    if x == y {
        let da = text::decimal(a as nat);
        let db = text::decimal(b as nat);
        assert(x == head + da + ")"@);
        assert(y == head + db + ")"@);
        assert(x.len() == head.len() + da.len() + ")"@.len());
        assert(y.len() == head.len() + db.len() + ")"@.len());
        assert(da.len() == db.len());
        assert(da =~= x.subrange(head.len() as int, (head.len() + da.len()) as int));
        assert(db =~= y.subrange(head.len() as int, (head.len() + db.len()) as int));
        law_decimal_tells_the_number(a as nat, b as nat);
    }
    let lead = "PinError: Invalid Pin."@ + " Retries left: "@;
    let s = PinError::InvalidPin(Some(m)).message();
    let t = PinError::InvalidPin(Some(n)).message();
    law_decimal_ends_in_its_last_digit(m as nat);
    assert(s.len() > "PinError: Invalid Pin."@.len());
    if s == t {
        let dm = text::decimal(m as nat);
        let dn = text::decimal(n as nat);
        assert(dm =~= s.skip(lead.len() as int));
        assert(dn =~= t.skip(lead.len() as int));
        law_decimal_tells_the_number(m as nat, n as nat);
    }
}

} // verus!
