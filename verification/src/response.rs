//! The payload of an answer, and how it is read: a CBOR map with the keys one to three.

use vstd::prelude::*;
use vstd::slice::slice_subrange;

use crate::cbor::{self, Found, MAX_LEVELS};
use crate::cbor::{find_any, find_byte, find_bytes, find_int, read_map_head, read_tags};
use crate::crypto::{self, COSEKey, CryptoBackend};
use crate::errors::{DecodeError, ResponseField};
use crate::pin::EncryptedPinToken;
use crate::request;

verus! {

/// The contents of an answer: the fields that it came with.
#[verifier::ext_equal]
pub struct ResponseModel {
    pub key_agreement: Option<Seq<u8>>,
    pub pin_token: Option<Seq<u8>>,
    pub retries: Option<u8>,
}

/// The answer without any field.
pub open spec fn bare_response() -> ResponseModel {
    ResponseModel { key_agreement: None, pin_token: None, retries: None }
}

/// Why an answer is refused.
pub enum Refusal {
    /// A data item is malformed, or not of the type that stands in its place.
    Cbor,
    /// There is no map.
    NotAMap,
    /// Tags or the map itself go deeper than `serde_cbor` reads.
    TooDeep,
    /// A field comes a second time.
    DuplicateField(ResponseField),
    /// A key that no field has.
    UnexpectedKey(i32),
    /// There are bytes behind the map.
    TrailingData,
}

/// The error `e` reports the refusal `why`. Which error of `serde_cbor` comes for a bad data item
/// is left open.
pub open spec fn reports(e: DecodeError, why: Refusal) -> bool {
    match why {
        Refusal::Cbor => e is Cbor,
        Refusal::NotAMap => e is NotAMap,
        Refusal::TooDeep => e is TooDeep,
        Refusal::DuplicateField(field) => e == DecodeError::DuplicateField(field),
        Refusal::UnexpectedKey(key) => e == DecodeError::UnexpectedKey(key),
        Refusal::TrailingData => e is TrailingData,
    }
}

/// How far an answer can be read without the help of a backend.
pub enum ReadingModel {
    /// To its end.
    Done(ResponseModel),
    /// Up to `item`, which must be a COSE key. Behind it stands `rest`, where `left` more entries
    /// are to follow, or any number of them, and an item can go `room` levels deep.
    Key { so_far: ResponseModel, item: Seq<u8>, rest: Seq<u8>, left: Option<nat>, room: nat },
    /// To a place where it is refused.
    Refused(Refusal),
}

/// What is read of an answer when its map ends before `rest`.
pub open spec fn end_of_map(st: ResponseModel, rest: Seq<u8>) -> ReadingModel {
    if rest.len() == 0 {
        ReadingModel::Done(st)
    } else {
        ReadingModel::Refused(Refusal::TrailingData)
    }
}

/// The number of entries left behind one more entry.
pub open spec fn one_less(left: Option<nat>) -> Option<nat> {
    match left {
        Some(n) => Some((n - 1) as nat),
        None => None,
    }
}

/// What is read of the entries at the start of `rest`, into the fields that `st` holds already.
/// There are `left` entries; without a number they go on up to a break byte. An item can go `room`
/// levels deep.
///
/// A field that is there is not read again, a null stands for a key or a token that is not there,
/// and a key that no field has is refused.
pub open spec fn entries_read(
    st: ResponseModel,
    rest: Seq<u8>,
    left: Option<nat>,
    room: nat,
) -> ReadingModel
    decreases rest.len(),
{
    if left == Some(0nat) {
        end_of_map(st, rest)
    } else if left is None && rest.len() > 0 && rest[0] == 0xff {
        end_of_map(st, rest.skip(1))
    } else {
        match cbor::int_found(rest, room) {
            Found::Item(key, n) if 0 < n <= rest.len() => value_read(
                st,
                key,
                rest.skip(n as int),
                one_less(left),
                room,
            ),
            Found::TooDeep => ReadingModel::Refused(Refusal::TooDeep),
            _ => ReadingModel::Refused(Refusal::Cbor),
        }
    }
}

/// What is read of the value at the start of `rest` that belongs to `key`, and of the `left`
/// entries behind it.
pub open spec fn value_read(
    st: ResponseModel,
    key: i32,
    rest: Seq<u8>,
    left: Option<nat>,
    room: nat,
) -> ReadingModel
    decreases rest.len(),
{
    if key == 1 {
        if st.key_agreement is Some {
            ReadingModel::Refused(Refusal::DuplicateField(ResponseField::KeyAgreement))
        } else {
            match cbor::any_found(rest, room) {
                Found::Item(Some(_), n) if 0 < n <= rest.len() => ReadingModel::Key {
                    so_far: st,
                    item: rest.take(n as int),
                    rest: rest.skip(n as int),
                    left,
                    room,
                },
                Found::Item(None, n) if 0 < n <= rest.len() => entries_read(
                    st,
                    rest.skip(n as int),
                    left,
                    room,
                ),
                Found::TooDeep => ReadingModel::Refused(Refusal::TooDeep),
                _ => ReadingModel::Refused(Refusal::Cbor),
            }
        }
    } else if key == 2 {
        if st.pin_token is Some {
            ReadingModel::Refused(Refusal::DuplicateField(ResponseField::PinToken))
        } else {
            match cbor::bytes_found(rest, room) {
                Found::Item(pin_token, n) if 0 < n <= rest.len() => entries_read(
                    ResponseModel { pin_token, ..st },
                    rest.skip(n as int),
                    left,
                    room,
                ),
                Found::TooDeep => ReadingModel::Refused(Refusal::TooDeep),
                _ => ReadingModel::Refused(Refusal::Cbor),
            }
        }
    } else if key == 3 {
        if st.retries is Some {
            ReadingModel::Refused(Refusal::DuplicateField(ResponseField::Retries))
        } else {
            match cbor::byte_found(rest, room) {
                Found::Item(retries, n) if 0 < n <= rest.len() => entries_read(
                    ResponseModel { retries: Some(retries), ..st },
                    rest.skip(n as int),
                    left,
                    room,
                ),
                Found::TooDeep => ReadingModel::Refused(Refusal::TooDeep),
                _ => ReadingModel::Refused(Refusal::Cbor),
            }
        }
    } else {
        ReadingModel::Refused(Refusal::UnexpectedKey(key))
    }
}

/// What is read of the answer `input`, which can go `levels` levels deep, without the help of a
/// backend. Semantic tags before its map mean nothing, but each of them takes a level, as the map
/// does.
pub open spec fn answer_read(input: Seq<u8>, levels: nat) -> ReadingModel {
    match cbor::tags_skipped(input, levels) {
        Some((tags, room)) => match cbor::map_head(input.skip(tags as int)) {
            Some((count, len)) => if room == 0 {
                ReadingModel::Refused(Refusal::TooDeep)
            } else {
                entries_read(
                    bare_response(),
                    input.skip((tags + len) as int),
                    count,
                    (room - 1) as nat,
                )
            },
            None => ReadingModel::Refused(Refusal::NotAMap),
        },
        None => ReadingModel::Refused(Refusal::TooDeep),
    }
}

/// What is read of the answer `input` without the help of a backend.
pub open spec fn response_read(input: Seq<u8>) -> ReadingModel {
    answer_read(input, MAX_LEVELS as nat)
}

/// A field that is there stays there: behind a key agreement no second one is read.
proof fn lemma_no_second_key(st: ResponseModel, rest: Seq<u8>, left: Option<nat>, room: nat)
    requires
        st.key_agreement is Some,
    ensures
        !(entries_read(st, rest, left, room) is Key),
    decreases rest.len(),
{
    match cbor::int_found(rest, room) {
        Found::Item(key, n) if 0 < n <= rest.len() => {
            let behind = rest.skip(n as int);
            if key == 2 {
                match cbor::bytes_found(behind, room) {
                    Found::Item(pin_token, m) if 0 < m <= behind.len() => {
                        lemma_no_second_key(
                            ResponseModel { pin_token, ..st },
                            behind.skip(m as int),
                            one_less(left),
                            room,
                        );
                    },
                    _ => {},
                }
            } else if key == 3 {
                match cbor::byte_found(behind, room) {
                    Found::Item(retries, m) if 0 < m <= behind.len() => {
                        lemma_no_second_key(
                            ResponseModel { retries: Some(retries), ..st },
                            behind.skip(m as int),
                            one_less(left),
                            room,
                        );
                    },
                    _ => {},
                }
            }
        },
        _ => {},
    }
}

/// The bytes of an optional token.
pub open spec fn opt_token_view(token: Option<EncryptedPinToken>) -> Option<Seq<u8>> {
    match token {
        Some(token) => Some(token@),
        None => None,
    }
}

/// An answer of `authenticatorClientPIN`.
#[derive(Debug)]
pub struct ClientPinResponse {
    pub key_agreement: Option<COSEKey>,
    pub pin_token: Option<EncryptedPinToken>,
    /// Number of PIN attempts remaining before lockout.
    pub retries: Option<u8>,
}

impl View for ClientPinResponse {
    type V = ResponseModel;

    open spec fn view(&self) -> ResponseModel {
        ResponseModel {
            key_agreement: request::opt_key_view(self.key_agreement),
            pin_token: opt_token_view(self.pin_token),
            retries: self.retries,
        }
    }
}

/// How far an answer was read without the help of a backend.
#[derive(Debug)]
pub enum Reading {
    /// To its end.
    Done(ClientPinResponse),
    /// Up to the item from `from` to `to`, which must be a COSE key. Behind it `left` more entries
    /// are to follow, or any number of them, and an item can go `room` levels deep.
    Key { so_far: ClientPinResponse, from: usize, to: usize, left: Option<u64>, room: u8 },
}

/// An optional number of entries.
pub open spec fn opt_nat(left: Option<u64>) -> Option<nat> {
    match left {
        Some(n) => Some(n as nat),
        None => None,
    }
}

/// `r` is what reading `input` gives, where `model` says how far it can be read.
pub open spec fn reads(
    model: ReadingModel,
    input: Seq<u8>,
    r: Result<Reading, DecodeError>,
) -> bool {
    match model {
        ReadingModel::Done(st) => r is Ok && r->Ok_0 is Done && r->Ok_0->Done_0@ == st,
        ReadingModel::Key { so_far, item, rest, left, room } => {
            &&& r is Ok
            &&& r->Ok_0 is Key
            &&& r->Ok_0->so_far@ == so_far
            &&& r->Ok_0->from < r->Ok_0->to <= input.len()
            &&& item == input.subrange(r->Ok_0->from as int, r->Ok_0->to as int)
            &&& rest == input.skip(r->Ok_0->to as int)
            &&& left == opt_nat(r->Ok_0->left)
            &&& room == r->Ok_0->room
            &&& room <= MAX_LEVELS
        },
        ReadingModel::Refused(why) => r is Err && reports(r->Err_0, why),
    }
}

/// `r` is the answer that a reading ends with, where `model` says that it needs no backend.
pub open spec fn ends(model: ReadingModel, r: Result<ClientPinResponse, DecodeError>) -> bool {
    match model {
        ReadingModel::Done(st) => r is Ok && r->Ok_0@ == st,
        ReadingModel::Key { .. } => false,
        ReadingModel::Refused(why) => r is Err && reports(r->Err_0, why),
    }
}

/// `r` is an outcome of reading the whole answer `input`. A COSE key in it is read by the backend;
/// what follows depends on what the backend made of it.
pub open spec fn deserialize_outcome<B: CryptoBackend>(
    input: Seq<u8>,
    r: Result<ClientPinResponse, DecodeError>,
) -> bool {
    match response_read(input) {
        ReadingModel::Key { so_far, item, rest, left, room } => exists|
            key: Result<COSEKey, serde_cbor::Error>,
        | #[trigger]
            crypto::parses_key::<B>(item, key) && match key {
                Ok(key) => ends(
                    entries_read(
                        ResponseModel { key_agreement: Some(key@), ..so_far },
                        rest,
                        left,
                        room,
                    ),
                    r,
                ),
                Err(e) => r == Err::<ClientPinResponse, DecodeError>(DecodeError::Cbor(e)),
            },
        model => ends(model, r),
    }
}

/// Reads on in `input` from `start`, where `count` entries are to follow, or any number of them
/// up to a break byte, into the fields that `so_far` holds already. An item can go `room` levels
/// deep.
pub fn read_entries(
    so_far: ClientPinResponse,
    input: &[u8],
    start: usize,
    count: Option<u64>,
    room: u8,
) -> (r: Result<Reading, DecodeError>)
    requires
        start <= input@.len(),
        room <= MAX_LEVELS,
    ensures
        reads(
            entries_read(so_far@, input@.skip(start as int), opt_nat(count), room as nat),
            input@,
            r,
        ),
{
    let ghost model = entries_read(
        so_far@,
        input@.skip(start as int),
        opt_nat(count),
        room as nat,
    );
    let mut fields = so_far;
    let mut pos: usize = start;
    let mut left: Option<u64> = count;
    loop
        invariant
            pos <= input@.len(),
            room <= MAX_LEVELS,
            model == entries_read(
                so_far@,
                input@.skip(start as int),
                opt_nat(count),
                room as nat,
            ),
            model == entries_read(fields@, input@.skip(pos as int), opt_nat(left), room as nat),
        decreases input@.len() - pos,
    {
        let ghost rest = input@.skip(pos as int);
        match left {
            Some(n) => {
                if n == 0 {
                    if pos < input.len() {
                        return Err(DecodeError::TrailingData);
                    }
                    return Ok(Reading::Done(fields));
                }
                left = Some(n - 1);
            },
            None => {
                if pos < input.len() && input[pos] == 0xff {
                    if pos + 1 < input.len() {
                        return Err(DecodeError::TrailingData);
                    }
                    return Ok(Reading::Done(fields));
                }
            },
        }
        let (key, n): (i32, usize) = match find_int(slice_subrange(input, pos, input.len()), room) {
            Ok(found) => found,
            Err(e) => return Err(e),
        };
        pos = pos + n;
        let behind = slice_subrange(input, pos, input.len());
        assert(behind@ =~= rest.skip(n as int));
        assert(model == value_read(fields@, key, behind@, opt_nat(left), room as nat));
        match key {
            1 => {
                if fields.key_agreement.is_some() {
                    return Err(DecodeError::DuplicateField(ResponseField::KeyAgreement));
                }
                let (there, n): (Option<()>, usize) = match find_any(behind, room) {
                    Ok(found) => found,
                    Err(e) => return Err(e),
                };
                assert(behind@.skip(n as int) =~= input@.skip(pos + n));
                if there.is_some() {
                    assert(behind@.take(n as int) =~= input@.subrange(pos as int, pos + n));
                    return Ok(Reading::Key { so_far: fields, from: pos, to: pos + n, left, room });
                }
                pos = pos + n;
            },
            2 => {
                if fields.pin_token.is_some() {
                    return Err(DecodeError::DuplicateField(ResponseField::PinToken));
                }
                let (token, n): (Option<Vec<u8>>, usize) = match find_bytes(behind, room) {
                    Ok(found) => found,
                    Err(e) => return Err(e),
                };
                assert(behind@.skip(n as int) =~= input@.skip(pos + n));
                fields.pin_token =
                match token {
                    Some(token) => Some(EncryptedPinToken::new(token)),
                    None => None,
                };
                pos = pos + n;
            },
            3 => {
                if fields.retries.is_some() {
                    return Err(DecodeError::DuplicateField(ResponseField::Retries));
                }
                let (retries, n): (u8, usize) = match find_byte(behind, room) {
                    Ok(found) => found,
                    Err(e) => return Err(e),
                };
                assert(behind@.skip(n as int) =~= input@.skip(pos + n));
                fields.retries = Some(retries);
                pos = pos + n;
            },
            key => {
                return Err(DecodeError::UnexpectedKey(key));
            },
        }
    }
}

impl ClientPinResponse {
    /// Reads the answer `input` as far as it can be read without the help of a backend.
    pub fn start(input: &[u8]) -> (r: Result<Reading, DecodeError>)
        ensures
            reads(response_read(input@), input@, r),
    {
        let none = ClientPinResponse { key_agreement: None, pin_token: None, retries: None };
        let (tags, room): (usize, u8) = match read_tags(input, MAX_LEVELS) {
            Some(skipped) => skipped,
            None => return Err(DecodeError::TooDeep),
        };
        let rest = slice_subrange(input, tags, input.len());
        assert(rest@ =~= input@.skip(tags as int));
        match read_map_head(rest) {
            Some(head) => {
                if room == 0 {
                    return Err(DecodeError::TooDeep);
                }
                read_entries(none, input, tags + head.len, head.count, room - 1)
            },
            None => Err(DecodeError::NotAMap),
        }
    }

    /// Takes `key` for the key agreement of an answer of which the fields of `self` were read so
    /// far, and reads on in `input` from `start`, where `left` entries are to follow, or any number
    /// of them up to a break byte. An item can go `room` levels deep.
    pub fn resume(
        self,
        key: COSEKey,
        input: &[u8],
        start: usize,
        left: Option<u64>,
        room: u8,
    ) -> (r: Result<ClientPinResponse, DecodeError>)
        requires
            start <= input@.len(),
            room <= MAX_LEVELS,
        ensures
            ends(
                entries_read(
                    (ResponseModel { key_agreement: Some(key@), ..self@ }),
                    input@.skip(start as int),
                    opt_nat(left),
                    room as nat,
                ),
                r,
            ),
    {
        let ghost model = ResponseModel { key_agreement: Some(key@), ..self@ };
        let so_far = ClientPinResponse {
            key_agreement: Some(key),
            pin_token: self.pin_token,
            retries: self.retries,
        };
        proof {
            assert(so_far@ == model);
            lemma_no_second_key(model, input@.skip(start as int), opt_nat(left), room as nat);
        }
        match read_entries(so_far, input, start, left, room)? {
            Reading::Done(response) => Ok(response),
            // does not come: a second key agreement is refused
            Reading::Key { so_far, .. } => Ok(so_far),
        }
    }

    /// Reads the answer `input`: one CBOR map with the fields of an answer, and nothing else.
    pub fn deserialize<B: CryptoBackend>(input: &[u8]) -> (r: Result<
        ClientPinResponse,
        DecodeError,
    >)
        ensures
            deserialize_outcome::<B>(input@, r),
    {
        match ClientPinResponse::start(input)? {
            Reading::Done(response) => Ok(response),
            Reading::Key { so_far, from, to, left, room } => {
                let key = B::parse_key(slice_subrange(input, from, to));
                assert(crypto::parses_key::<B>(
                    input@.subrange(from as int, to as int),
                    key,
                ));
                match key {
                    Ok(key) => so_far.resume(key, input, to, left, room),
                    Err(e) => Err(DecodeError::Cbor(e)),
                }
            },
        }
    }
}

} // verus!
