//! Laws of reading, byte by byte: heads, numbers, byte strings and entries as they are on the wire,
//! and what an answer comes to.

use vstd::prelude::*;

use crate::cbor::{self, Found};
use crate::crypto::{self, COSEKey, CryptoBackend};
use crate::errors::{self, DecodeError, ResponseField, StatusCode};
use crate::laws::answers;
use crate::response::{self, ClientPinResponse, Reading, ReadingModel, Refusal, ResponseModel};

verus! {

/// Answers are read 127 levels deep.
pub proof fn law_levels()
    ensures
        cbor::MAX_LEVELS == 127,
{
}

/// What the first byte of an item says: the major type in its upper three bits, and in the lower
/// five the argument itself, or that it follows in one, two, four or eight bytes, the highest first.
pub proof fn law_heads_byte_by_byte(b: Seq<u8>)
    ensures
        b.len() == 0 ==> cbor::item_head(b) is None,
        b.len() >= 1 && b[0] % 32 < 24 ==> cbor::item_head(b) == Some(
            (b[0] / 32, (b[0] % 32) as nat, 1nat),
        ),
        b.len() >= 2 && b[0] % 32 == 24 ==> cbor::item_head(b) == Some(
            (b[0] / 32, b[1] as nat, 2nat),
        ),
        b.len() >= 3 && b[0] % 32 == 25 ==> cbor::item_head(b) == Some(
            (b[0] / 32, (b[1] * 0x100 + b[2]) as nat, 3nat),
        ),
        b.len() >= 5 && b[0] % 32 == 26 ==> cbor::item_head(b) == Some(
            (b[0] / 32, (b[1] * 0x100_0000 + b[2] * 0x1_0000 + b[3] * 0x100 + b[4]) as nat, 5nat),
        ),
        b.len() >= 9 && b[0] % 32 == 27 ==> cbor::item_head(b) == Some(
            (
                b[0] / 32,
                (b[1] * 0x100_0000_0000_0000 + b[2] * 0x1_0000_0000_0000 + b[3] * 0x100_0000_0000
                    + b[4] * 0x1_0000_0000 + b[5] * 0x100_0000 + b[6] * 0x1_0000 + b[7] * 0x100
                    + b[8]) as nat,
                9nat,
            ),
        ),
        b.len() == 1 && b[0] % 32 >= 24 ==> cbor::item_head(b) is None,
        b.len() < 3 && b.len() > 0 && b[0] % 32 == 25 ==> cbor::item_head(b) is None,
        b.len() < 5 && b.len() > 0 && b[0] % 32 == 26 ==> cbor::item_head(b) is None,
        b.len() < 9 && b.len() > 0 && b[0] % 32 == 27 ==> cbor::item_head(b) is None,
        b.len() > 0 && b[0] % 32 > 27 ==> cbor::item_head(b) is None,
{
    if b.len() > 0 {
        let width = cbor::argument_width(b[0] % 32);
        if 0 < width < b.len() {
            let s = b.subrange(1, 1 + width as int);
            reveal_with_fuel(cbor::be_nat, 9);
            assert forall|i: int| 0 <= i < s.len() implies s[i] == b[i + 1] by {}
            if width >= 2 {
                assert(s.drop_last().last() == b[width - 1]);
            }
            if width >= 4 {
                assert(s.drop_last().drop_last().last() == b[width - 2]);
                assert(s.drop_last().drop_last().drop_last().last() == b[width - 3]);
            }
            if width == 8 {
                let t = s.drop_last().drop_last().drop_last().drop_last();
                assert(t.last() == b[4]);
                assert(t.drop_last().last() == b[3]);
                assert(t.drop_last().drop_last().last() == b[2]);
                assert(t.drop_last().drop_last().drop_last().last() == b[1]);
            }
        }
    }
}

/// Tags are skipped one by one, each of them takes a level, and what is no tag ends them.
pub proof fn law_tags_are_skipped_one_by_one(b: Seq<u8>, room: nat)
    ensures
        match cbor::item_head(b) {
            Some((6, _, len)) => if room == 0 {
                cbor::tags_skipped(b, room) is None
            } else {
                match cbor::tags_skipped(b.skip(len as int), (room - 1) as nat) {
                    Some((more, left)) => cbor::tags_skipped(b, room) == Some((len + more, left)),
                    None => cbor::tags_skipped(b, room) is None,
                }
            },
            _ => cbor::tags_skipped(b, room) == Some((0nat, room)),
        },
{
}

/// A tag before a number takes a level, and its bytes are counted with those of the number.
pub proof fn law_tags_before_numbers(b: Seq<u8>, room: nat)
    requires
        cbor::item_head(b) matches Some((6, _, _)),
    ensures
        room == 0 ==> cbor::int_found(b, room) is TooDeep && cbor::byte_found(b, room) is TooDeep,
        room > 0 ==> {
            let len = cbor::item_head(b)->Some_0.2;
            let behind = cbor::int_found(b.skip(len as int), (room - 1) as nat);
            match behind {
                Found::Item(n, more) => cbor::int_found(b, room) == Found::Item(n, len + more),
                Found::Malformed => cbor::int_found(b, room) is Malformed,
                Found::TooDeep => cbor::int_found(b, room) is TooDeep,
            }
        },
        room > 0 ==> {
            let len = cbor::item_head(b)->Some_0.2;
            let behind = cbor::byte_found(b.skip(len as int), (room - 1) as nat);
            match behind {
                Found::Item(n, more) => cbor::byte_found(b, room) == Found::Item(n, len + more),
                Found::Malformed => cbor::byte_found(b, room) is Malformed,
                Found::TooDeep => cbor::byte_found(b, room) is TooDeep,
            }
        },
{
    reveal(cbor::int_found);
    reveal(cbor::byte_found);
    if room > 0 {
        let len = cbor::item_head(b)->Some_0.2;
        let rest = b.skip(len as int);
        if let Some((more, _)) = cbor::tags_skipped(rest, (room - 1) as nat) {
            answers::lemma_tags_fit(rest, (room - 1) as nat);
            assert(rest.skip(more as int) =~= b.skip((len + more) as int));
        }
    }
}

/// A number without a tag is its argument, or what is that far below minus one; as a key it must fit
/// 32 bits with a sign, as a count of retries one byte without. Anything else is no number.
pub proof fn law_numbers_without_tags(b: Seq<u8>, room: nat)
    requires
        !(cbor::item_head(b) matches Some((6, _, _))),
    ensures
        match cbor::item_head(b) {
            Some((0, n, len)) => if n <= 0x7fff_ffff {
                cbor::int_found(b, room) == Found::Item(n as i32, len)
            } else {
                cbor::int_found(b, room) is Malformed
            },
            Some((1, n, len)) => if n <= 0x7fff_ffff {
                cbor::int_found(b, room) == Found::Item((-1 - n) as i32, len)
            } else {
                cbor::int_found(b, room) is Malformed
            },
            _ => cbor::int_found(b, room) is Malformed,
        },
        match cbor::item_head(b) {
            Some((0, n, len)) => if n <= 0xff {
                cbor::byte_found(b, room) == Found::Item(n as u8, len)
            } else {
                cbor::byte_found(b, room) is Malformed
            },
            _ => cbor::byte_found(b, room) is Malformed,
        },
{
    reveal(cbor::int_found);
    reveal(cbor::byte_found);
    assert(b.skip(0) =~= b);
}

/// Where a token is expected: a null is none; a byte string of known length is its bytes, if they
/// are all there; a tag takes a level. Of anything else `serde_bytes` says at that depth what bytes
/// it stands for.
pub proof fn law_tokens_byte_by_byte(b: Seq<u8>, room: nat)
    requires
        room <= 127,
    ensures
        b.len() > 0 && b[0] == 0xf6 ==> cbor::bytes_found(b, room) == Found::Item(
            None::<Seq<u8>>,
            1nat,
        ),
        match cbor::item_head(b) {
            Some((2, n, len)) => if len + n <= b.len() {
                cbor::bytes_found(b, room) == Found::Item(
                    Some(b.subrange(len as int, (len + n) as int)),
                    len + n,
                )
            } else {
                cbor::bytes_found(b, room) is Malformed
            },
            Some((6, _, len)) => if room == 0 {
                cbor::bytes_found(b, room) is TooDeep
            } else {
                b.skip(len as int).len() > 0 && b.skip(len as int)[0] == 0xf6 || match (
                cbor::bytes_found(b.skip(len as int), (room - 1) as nat)) {
                    Found::Item(data, more) => cbor::bytes_found(b, room) == Found::Item(
                        data,
                        len + more,
                    ),
                    Found::Malformed => cbor::bytes_found(b, room) is Malformed,
                    Found::TooDeep => cbor::bytes_found(b, room) is TooDeep,
                }
            },
            _ => !(b.len() > 0 && b[0] == 0xf6) ==> match cbor::other_bytes(
                Seq::new((127 - room) as nat, |i: int| 0xc0u8) + b,
            ) {
                Some((data, len)) => if len > 127 - room {
                    cbor::bytes_found(b, room) == Found::Item(
                        Some(data),
                        (len - (127 - room)) as nat,
                    )
                } else {
                    cbor::bytes_found(b, room) is Malformed
                },
                None => cbor::bytes_found(b, room) is Malformed,
            },
        },
{
    reveal(cbor::bytes_found);
    let deep = Seq::new((127 - room) as nat, |i: int| 0xc0u8) + b;
    assert(deep =~= cbor::nest((127 - room) as nat) + b);
    if room < 127 {
        assert(deep[0] == 0xc0);
    } else {
        assert(deep =~= b);
    }
    assert(b.skip(0) =~= b);
    match cbor::item_head(b) {
        Some((6, _, len)) => {
            if room > 0 {
                let rest = b.skip(len as int);
                if let Some((more, _)) = cbor::tags_skipped(rest, (room - 1) as nat) {
                    answers::lemma_tags_fit(rest, (room - 1) as nat);
                    assert(rest.skip(more as int) =~= b.skip((len + more) as int));
                }
            }
        },
        _ => {},
    }
}

/// Where a key agreement is expected: a null is none; any other value is found, with as many bytes as
/// `serde_cbor` takes for it at that depth.
pub proof fn law_keys_byte_by_byte(b: Seq<u8>, room: nat)
    requires
        room <= 127,
    ensures
        b.len() > 0 && b[0] == 0xf6 ==> cbor::any_found(b, room) == Found::Item(None::<()>, 1nat),
        !(b.len() > 0 && b[0] == 0xf6) ==> match cbor::value_len(
            Seq::new((127 - room) as nat, |i: int| 0xc0u8) + b,
        ) {
            Some(len) => if len > 127 - room {
                cbor::any_found(b, room) == Found::Item(Some(()), (len - (127 - room)) as nat)
            } else {
                cbor::any_found(b, room) is Malformed
            },
            None => cbor::any_found(b, room) is Malformed,
        },
{
    reveal(cbor::any_found);
}

/// The head of a map: 0xa0 to 0xbb with the number of entries, or 0xbf without.
pub proof fn law_map_heads(b: Seq<u8>)
    ensures
        match cbor::item_head(b) {
            Some((major, n, len)) => if major == 5 {
                cbor::map_head(b) == Some((Some(n), len))
            } else {
                cbor::map_head(b) is None
            },
            None => if b.len() > 0 && b[0] == 0xbf {
                cbor::map_head(b) == Some((None::<nat>, 1nat))
            } else {
                cbor::map_head(b) is None
            },
        },
{
}

/// A map ends where its entries are used up, or at the byte 0xff where they are not counted; nothing
/// may follow.
pub proof fn law_maps_end(st: ResponseModel, rest: Seq<u8>, room: nat)
    ensures
        rest.len() == 0 ==> response::entries_read(st, rest, Some(0), room) == ReadingModel::Done(
            st,
        ),
        rest.len() > 0 ==> response::entries_read(st, rest, Some(0), room)
            == ReadingModel::Refused(Refusal::TrailingData),
        rest.len() == 1 && rest[0] == 0xff ==> response::entries_read(st, rest, None, room)
            == ReadingModel::Done(st),
        rest.len() > 1 && rest[0] == 0xff ==> response::entries_read(st, rest, None, room)
            == ReadingModel::Refused(Refusal::TrailingData),
        rest.len() == 0 ==> response::entries_read(st, rest, None, room) == ReadingModel::Refused(
            Refusal::Cbor,
        ),
{
    reveal(cbor::int_found);
    assert(rest.skip(0) =~= rest);
}

/// An entry that is to come must start with a key.
pub proof fn law_entries_start_with_a_key(
    st: ResponseModel,
    rest: Seq<u8>,
    left: Option<nat>,
    room: nat,
)
    requires
        left != Some(0nat),
        !(left is None && rest.len() > 0 && rest[0] == 0xff),
    ensures
        cbor::int_found(rest, room) is Malformed ==> response::entries_read(st, rest, left, room)
            == ReadingModel::Refused(Refusal::Cbor),
        cbor::int_found(rest, room) is TooDeep ==> response::entries_read(st, rest, left, room)
            == ReadingModel::Refused(Refusal::TooDeep),
{
}

/// An entry with the key three brings the retries, once; its value is one byte.
pub proof fn law_key_three_brings_the_retries(
    st: ResponseModel,
    rest: Seq<u8>,
    n: nat,
    left: Option<nat>,
    room: nat,
)
    requires
        left != Some(0nat),
        cbor::int_found(rest, room) == Found::Item(3i32, n),
        0 < n <= rest.len(),
    ensures
        st.retries is Some ==> response::entries_read(st, rest, left, room)
            == ReadingModel::Refused(Refusal::DuplicateField(ResponseField::Retries)),
        st.retries is None ==> match cbor::byte_found(rest.skip(n as int), room) {
            Found::Item(retries, m) => 0 < m <= rest.len() - n ==> response::entries_read(
                st,
                rest,
                left,
                room,
            ) == response::entries_read(
                ResponseModel {
                    key_agreement: st.key_agreement,
                    pin_token: st.pin_token,
                    retries: Some(retries),
                },
                rest.skip((n + m) as int),
                match left {
                    Some(l) => Some((l - 1) as nat),
                    None => None,
                },
                room,
            ),
            Found::Malformed => response::entries_read(st, rest, left, room)
                == ReadingModel::Refused(Refusal::Cbor),
            Found::TooDeep => response::entries_read(st, rest, left, room)
                == ReadingModel::Refused(Refusal::TooDeep),
        },
{
    if rest[0] == 0xff {
        answers::lemma_break_is_no_key(rest, room);
    }
    if let Found::Item(_, m) = cbor::byte_found(rest.skip(n as int), room) {
        if m <= rest.len() - n {
            assert(rest.skip(n as int).skip(m as int) =~= rest.skip((n + m) as int));
        }
    }
}

/// An entry with the key two brings the token, once; a null brings none.
pub proof fn law_key_two_brings_the_token(
    st: ResponseModel,
    rest: Seq<u8>,
    n: nat,
    left: Option<nat>,
    room: nat,
)
    requires
        left != Some(0nat),
        cbor::int_found(rest, room) == Found::Item(2i32, n),
        0 < n <= rest.len(),
    ensures
        st.pin_token is Some ==> response::entries_read(st, rest, left, room)
            == ReadingModel::Refused(Refusal::DuplicateField(ResponseField::PinToken)),
        st.pin_token is None ==> match cbor::bytes_found(rest.skip(n as int), room) {
            Found::Item(token, m) => 0 < m <= rest.len() - n ==> response::entries_read(
                st,
                rest,
                left,
                room,
            ) == response::entries_read(
                ResponseModel {
                    key_agreement: st.key_agreement,
                    pin_token: token,
                    retries: st.retries,
                },
                rest.skip((n + m) as int),
                match left {
                    Some(l) => Some((l - 1) as nat),
                    None => None,
                },
                room,
            ),
            Found::Malformed => response::entries_read(st, rest, left, room)
                == ReadingModel::Refused(Refusal::Cbor),
            Found::TooDeep => response::entries_read(st, rest, left, room)
                == ReadingModel::Refused(Refusal::TooDeep),
        },
{
    if rest[0] == 0xff {
        answers::lemma_break_is_no_key(rest, room);
    }
    if let Found::Item(_, m) = cbor::bytes_found(rest.skip(n as int), room) {
        if m <= rest.len() - n {
            assert(rest.skip(n as int).skip(m as int) =~= rest.skip((n + m) as int));
        }
    }
}

/// An entry with the key one brings the key agreement, once; the whole value, and no more, goes to
/// the backend. A null brings none.
pub proof fn law_key_one_brings_the_key(
    st: ResponseModel,
    rest: Seq<u8>,
    n: nat,
    left: Option<nat>,
    room: nat,
)
    requires
        left != Some(0nat),
        cbor::int_found(rest, room) == Found::Item(1i32, n),
        0 < n <= rest.len(),
    ensures
        st.key_agreement is Some ==> response::entries_read(st, rest, left, room)
            == ReadingModel::Refused(Refusal::DuplicateField(ResponseField::KeyAgreement)),
        st.key_agreement is None ==> match cbor::any_found(rest.skip(n as int), room) {
            Found::Item(Some(_), m) => 0 < m <= rest.len() - n ==> response::entries_read(
                st,
                rest,
                left,
                room,
            ) == (ReadingModel::Key {
                so_far: st,
                item: rest.subrange(n as int, (n + m) as int),
                rest: rest.skip((n + m) as int),
                left: match left {
                    Some(l) => Some((l - 1) as nat),
                    None => None,
                },
                room,
            }),
            Found::Item(None, m) => 0 < m <= rest.len() - n ==> response::entries_read(
                st,
                rest,
                left,
                room,
            ) == response::entries_read(
                st,
                rest.skip((n + m) as int),
                match left {
                    Some(l) => Some((l - 1) as nat),
                    None => None,
                },
                room,
            ),
            Found::Malformed => response::entries_read(st, rest, left, room)
                == ReadingModel::Refused(Refusal::Cbor),
            Found::TooDeep => response::entries_read(st, rest, left, room)
                == ReadingModel::Refused(Refusal::TooDeep),
        },
{
    if rest[0] == 0xff {
        answers::lemma_break_is_no_key(rest, room);
    }
    if let Found::Item(_, m) = cbor::any_found(rest.skip(n as int), room) {
        if m <= rest.len() - n {
            assert(rest.skip(n as int).skip(m as int) =~= rest.skip((n + m) as int));
            assert(rest.skip(n as int).take(m as int) =~= rest.subrange(n as int, (n + m) as int));
        }
    }
}

/// An entry with any other key is refused, and the key is told.
pub proof fn law_other_keys_bring_nothing(
    st: ResponseModel,
    rest: Seq<u8>,
    key: i32,
    n: nat,
    left: Option<nat>,
    room: nat,
)
    requires
        left != Some(0nat),
        cbor::int_found(rest, room) == Found::Item(key, n),
        0 < n <= rest.len(),
        key < 1 || key > 3,
    ensures
        response::entries_read(st, rest, left, room) == ReadingModel::Refused(
            Refusal::UnexpectedKey(key),
        ),
{
    if rest[0] == 0xff {
        answers::lemma_break_is_no_key(rest, room);
    }
}

/// An answer is a map, and its entries fill fields that were empty before; the map takes a level.
pub proof fn law_answers_are_maps(input: Seq<u8>)
    requires
        !(cbor::item_head(input) matches Some((6, _, _))),
    ensures
        match cbor::map_head(input) {
            Some((count, len)) => response::response_read(input) == response::entries_read(
                ResponseModel { key_agreement: None, pin_token: None, retries: None },
                input.skip(len as int),
                count,
                126,
            ),
            None => response::response_read(input) == ReadingModel::Refused(Refusal::NotAMap),
        },
{
    assert(input.skip(0) =~= input);
}

/// The fields of an answer, as its contents have them.
pub proof fn law_answer_contents_are_its_fields(a: ClientPinResponse)
    ensures
        a@.retries == a.retries,
        a.key_agreement is Some ==> a@.key_agreement == Some(a.key_agreement->Some_0@),
        a.key_agreement is None ==> a@.key_agreement is None,
        a.pin_token is Some ==> a@.pin_token == Some(a.pin_token->Some_0@),
        a.pin_token is None ==> a@.pin_token is None,
{
}

/// Each refusal is reported as what it is.
pub proof fn law_refusals_are_reported(e: DecodeError, why: Refusal)
    requires
        response::reports(e, why),
    ensures
        why is Cbor ==> e is Cbor,
        why is NotAMap ==> e is NotAMap,
        why is TooDeep ==> e is TooDeep,
        why is TrailingData ==> e is TrailingData,
        why is DuplicateField ==> e is DuplicateField && e->DuplicateField_0
            == why->DuplicateField_0,
        why is UnexpectedKey ==> e is UnexpectedKey && e->UnexpectedKey_0 == why->UnexpectedKey_0,
{
}

/// What a reading comes to where it needs no backend: the fields that were read, or the refusal.
pub proof fn law_readings_end(model: ReadingModel, r: Result<ClientPinResponse, DecodeError>)
    requires
        response::ends(model, r),
    ensures
        !(model is Key),
        model is Done ==> r is Ok && r->Ok_0@ == model->Done_0,
        model is Refused ==> r is Err && response::reports(r->Err_0, model->Refused_0),
{
}

/// Where a reading stops at a key, it says where the item is, what was read before it, and how to go
/// on.
pub proof fn law_readings_stop(
    model: ReadingModel,
    input: Seq<u8>,
    r: Result<Reading, DecodeError>,
)
    requires
        response::reads(model, input, r),
    ensures
        model is Done ==> r is Ok && r->Ok_0 is Done && r->Ok_0->Done_0@ == model->Done_0,
        model is Refused ==> r is Err && response::reports(r->Err_0, model->Refused_0),
        model is Key ==> {
            &&& r is Ok
            &&& r->Ok_0 is Key
            &&& r->Ok_0->so_far@ == model->so_far
            &&& r->Ok_0->from < r->Ok_0->to <= input.len()
            &&& input.subrange(r->Ok_0->from as int, r->Ok_0->to as int) == model->item
            &&& input.skip(r->Ok_0->to as int) == model->rest
            &&& r->Ok_0->left is Some ==> model->left == Some(r->Ok_0->left->Some_0 as nat)
            &&& r->Ok_0->left is None ==> model->left is None
            &&& r->Ok_0->room == model->room
        },
{
}

/// Reading an answer with a key agreement is one call of the backend with the item that stands in
/// the place of the key. Its error is the error; its key is the key, and the rest is read behind it.
pub proof fn law_keys_are_read_by_the_backend<B: CryptoBackend>(
    input: Seq<u8>,
    r: Result<ClientPinResponse, DecodeError>,
)
    requires
        response::deserialize_outcome::<B>(input, r),
    ensures
        !(response::response_read(input) is Key) ==> response::ends(
            response::response_read(input),
            r,
        ),
        response::response_read(input) is Key ==> exists|
            i: &[u8],
            key: Result<COSEKey, serde_cbor::Error>,
        | #[trigger]
            call_ensures(B::parse_key, (i,), key) && i@ == response::response_read(input)->item && (
            key is Err ==> r is Err && r->Err_0 == DecodeError::Cbor(key->Err_0)) && (
            key is Ok ==> response::ends(
                response::entries_read(
                    ResponseModel {
                        key_agreement: Some(key->Ok_0@),
                        pin_token: response::response_read(input)->so_far.pin_token,
                        retries: response::response_read(input)->so_far.retries,
                    },
                    response::response_read(input)->rest,
                    response::response_read(input)->left,
                    response::response_read(input)->room,
                ),
                r,
            )),
{
    if let ReadingModel::Key { so_far, item, rest, left, room } = response::response_read(input) {
        let key = choose|key: Result<COSEKey, serde_cbor::Error>| #[trigger]
            crypto::parses_key::<B>(item, key) && match key {
                Ok(key) => response::ends(
                    response::entries_read(
                        ResponseModel { key_agreement: Some(key@), ..so_far },
                        rest,
                        left,
                        room,
                    ),
                    r,
                ),
                Err(e) => r == Err::<ClientPinResponse, DecodeError>(DecodeError::Cbor(e)),
            };
        let i = choose|i: &[u8]| i@ == item && #[trigger] call_ensures(B::parse_key, (i,), key);
        assert(call_ensures(B::parse_key, (i,), key));
    }
}

/// What a status byte stands for.
pub proof fn law_status_bytes(b: u8)
    ensures
        b == 0x00 <==> errors::status_of(b) == StatusCode::OK,
        b == 0x37 <==> errors::status_of(b) == StatusCode::PinPolicyViolation,
        b != 0x00 && b != 0x37 ==> errors::status_of(b) == StatusCode::Other(b),
{
}

/// One CBOR value, whole: where `plain_len` knows the length of what stands at the start, that is all
/// there is; elsewhere `serde_cbor` says.
pub proof fn law_values_are_whole(input: Seq<u8>)
    ensures
        cbor::plain_len(input, 127) is Some ==> (cbor::is_cbor_value(input) <==> cbor::plain_len(
            input,
            127,
        )->Some_0 == input.len()),
        cbor::plain_len(input, 127) is None ==> cbor::is_cbor_value(input) == cbor::is_other_value(
            input,
        ),
        cbor::plain_len(input, 127) is Some ==> cbor::value_len(input) == cbor::plain_len(
            input,
            127,
        ),
        cbor::plain_len(input, 127) is None ==> cbor::value_len(input) == cbor::other_value_len(
            input,
        ),
{
}

/// The length of a plain value, by its head.
pub proof fn law_plain_values_by_their_heads(b: Seq<u8>, room: nat)
    ensures
        match cbor::item_head(b) {
            Some((0, _, len)) => cbor::plain_len(b, room) == Some(len),
            Some((1, _, len)) => cbor::plain_len(b, room) == Some(len),
            Some((2, n, len)) => if len + n <= b.len() {
                cbor::plain_len(b, room) == Some(len + n)
            } else {
                cbor::plain_len(b, room) is None
            },
            Some((3, _, _)) => cbor::plain_len(b, room) is None,
            Some((7, n, len)) => if len == 1 && (n == 20 || n == 21 || n == 22 || n == 23) {
                cbor::plain_len(b, room) == Some(1nat)
            } else {
                cbor::plain_len(b, room) is None
            },
            Some((_, _, len)) => room == 0 ==> cbor::plain_len(b, room) is None,
            None => cbor::plain_len(b, room) is None,
        },
{
}

} // verus!
