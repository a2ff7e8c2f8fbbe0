//! Laws of what is read: an answer reads back as it was written, and no field is taken twice.

use vstd::prelude::*;

use crate::cbor::{self, Found};
use crate::crypto::{self, COSEKey, CryptoBackend};
use crate::errors::{DecodeError, ResponseField};
use crate::laws::{encoding, values};
use crate::request;
use crate::response::{self, ClientPinResponse, ReadingModel, Refusal, ResponseModel};

verus! {

/// The fields of `later` that `earlier` holds already are the same in both.
pub open spec fn keeps(earlier: ResponseModel, later: ResponseModel) -> bool {
    &&& earlier.key_agreement is Some ==> later.key_agreement == earlier.key_agreement
    &&& earlier.pin_token is Some ==> later.pin_token == earlier.pin_token
    &&& earlier.retries is Some ==> later.retries == earlier.retries
}

/// A field that was read is not overwritten by what follows.
pub proof fn law_fields_are_kept(st: ResponseModel, rest: Seq<u8>, left: Option<nat>, room: nat)
    ensures
        match response::entries_read(st, rest, left, room) {
            ReadingModel::Done(end) => keeps(st, end),
            ReadingModel::Key { so_far, .. } => keeps(st, so_far) && st.key_agreement is None,
            ReadingModel::Refused(_) => true,
        },
    decreases rest.len(),
{
    match cbor::int_found(rest, room) {
        Found::Item(key, n) if 0 < n <= rest.len() => {
            let behind = rest.skip(n as int);
            let less = response::one_less(left);
            if key == 1 {
                match cbor::any_found(behind, room) {
                    Found::Item(None, m) if 0 < m <= behind.len() => {
                        law_fields_are_kept(st, behind.skip(m as int), less, room);
                    },
                    _ => {},
                }
            } else if key == 2 {
                match cbor::bytes_found(behind, room) {
                    Found::Item(pin_token, m) if 0 < m <= behind.len() => {
                        law_fields_are_kept(
                            ResponseModel { pin_token, ..st },
                            behind.skip(m as int),
                            less,
                            room,
                        );
                    },
                    _ => {},
                }
            } else if key == 3 {
                match cbor::byte_found(behind, room) {
                    Found::Item(retries, m) if 0 < m <= behind.len() => {
                        law_fields_are_kept(
                            ResponseModel { retries: Some(retries), ..st },
                            behind.skip(m as int),
                            less,
                            room,
                        );
                    },
                    _ => {},
                }
            }
        },
        _ => {},
    }
}

/// The field that an entry with the key `key` fills.
pub open spec fn field_of(key: i32) -> Option<ResponseField> {
    if key == 1 {
        Some(ResponseField::KeyAgreement)
    } else if key == 2 {
        Some(ResponseField::PinToken)
    } else if key == 3 {
        Some(ResponseField::Retries)
    } else {
        None
    }
}

/// Whether `st` holds the field `field`.
pub open spec fn has_field(st: ResponseModel, field: ResponseField) -> bool {
    match field {
        ResponseField::KeyAgreement => st.key_agreement is Some,
        ResponseField::PinToken => st.pin_token is Some,
        ResponseField::Retries => st.retries is Some,
    }
}

/// `rest` starts with the key `key`, however it is written, where `room` levels are left.
pub open spec fn starts_with_key(rest: Seq<u8>, key: i32, room: nat) -> bool {
    match cbor::int_found(rest, room) {
        Found::Item(k, n) => k == key && 0 < n <= rest.len(),
        _ => false,
    }
}

/// A break byte is no key.
pub proof fn lemma_break_is_no_key(rest: Seq<u8>, room: nat)
    requires
        rest.len() > 0,
        rest[0] == 0xff,
    ensures
        cbor::int_found(rest, room) is Malformed,
{
    reveal(cbor::int_found);
    assert(rest.skip(0) =~= rest);
}

/// An entry for a field that was read already is refused, whatever its value is.
pub proof fn law_duplicates_are_refused(
    st: ResponseModel,
    key: i32,
    rest: Seq<u8>,
    left: Option<nat>,
    room: nat,
)
    requires
        left != Some(0nat),
        starts_with_key(rest, key, room),
        field_of(key) is Some,
        has_field(st, field_of(key)->Some_0),
    ensures
        response::entries_read(st, rest, left, room) == ReadingModel::Refused(
            Refusal::DuplicateField(field_of(key)->Some_0),
        ),
{
    if rest[0] == 0xff {
        lemma_break_is_no_key(rest, room);
    }
}

/// An entry with a key that no field has is refused, whatever its value is.
pub proof fn law_unknown_keys_are_refused(
    st: ResponseModel,
    key: i32,
    rest: Seq<u8>,
    left: Option<nat>,
    room: nat,
)
    requires
        left != Some(0nat),
        starts_with_key(rest, key, room),
        field_of(key) is None,
    ensures
        response::entries_read(st, rest, left, room) == ReadingModel::Refused(
            Refusal::UnexpectedKey(key),
        ),
{
    if rest[0] == 0xff {
        lemma_break_is_no_key(rest, room);
    }
}

/// A key that was written is read, and its value is read next.
proof fn lemma_key_is_read(
    st: ResponseModel,
    key: u8,
    behind: Seq<u8>,
    left: Option<nat>,
    room: nat,
)
    requires
        left != Some(0nat),
    ensures
        response::entries_read(st, cbor::cbor_uint(key) + behind, left, room)
            == response::value_read(st, key as i32, behind, response::one_less(left), room),
{
    let head = cbor::cbor_uint(key);
    encoding::law_uint_reads_back(key, behind, room);
    encoding::law_head_reads_back(0, key as nat, behind);
    assert((head + behind)[0] == head[0]);
    assert((head + behind).skip(head.len() as int) =~= behind);
}

/// How an answer is written: with its entries counted beforehand or streamed up to a break byte, and
/// with a null or nothing at all for a key agreement and for a token that are not there.
pub struct AnswerForm {
    pub streamed: bool,
    pub null_key: bool,
    pub null_token: bool,
}

/// `item`, or a null in its place if nulls are written.
pub open spec fn item_or_null(item: Option<Seq<u8>>, nulls: bool) -> Option<Seq<u8>> {
    if item is None && nulls {
        Some(seq![0xf6u8])
    } else {
        item
    }
}

/// The entries of an answer with the fields of `m`, in the order of their keys.
pub open spec fn answer_entries(m: ResponseModel, form: AnswerForm) -> Seq<(u8, Seq<u8>)> {
    request::opt_entry(1, item_or_null(m.key_agreement, form.null_key)) + request::opt_entry(
        2,
        item_or_null(request::opt_bytes_item(m.pin_token), form.null_token),
    ) + request::opt_entry(3, request::opt_uint_item(m.retries))
}

/// An answer with the fields of `m`, as an authenticator writes it.
pub open spec fn answer_encoding(m: ResponseModel, form: AnswerForm) -> Seq<u8> {
    let entries = answer_entries(m, form);
    if form.streamed {
        seq![0xbfu8] + request::flat(entries) + seq![0xffu8]
    } else {
        cbor::cbor_head(5, entries.len()) + request::flat(entries)
    }
}

/// What ends a map: a break byte, if its entries are not counted.
pub open spec fn map_end(streamed: bool) -> Seq<u8> {
    if streamed {
        seq![0xffu8]
    } else {
        Seq::empty()
    }
}

/// How many of `n` entries the reader knows to be left.
pub open spec fn known_left(n: nat, streamed: bool) -> Option<nat> {
    if streamed {
        None
    } else {
        Some(n)
    }
}

/// The item for the key agreement, if there is one.
spec fn key_item(m: ResponseModel, form: AnswerForm) -> Option<Seq<u8>> {
    item_or_null(m.key_agreement, form.null_key)
}

/// The item for the token, if there is one.
spec fn token_item(m: ResponseModel, form: AnswerForm) -> Option<Seq<u8>> {
    item_or_null(request::opt_bytes_item(m.pin_token), form.null_token)
}

/// The bytes of an answer from the token on.
spec fn from_token(m: ResponseModel, form: AnswerForm) -> Seq<u8> {
    request::entry_bytes(2, token_item(m, form)) + from_retries(m, form)
}

/// The bytes of an answer from the retries on.
spec fn from_retries(m: ResponseModel, form: AnswerForm) -> Seq<u8> {
    request::entry_bytes(3, request::opt_uint_item(m.retries)) + map_end(form.streamed)
}

/// The number of an answer's entries from the token on.
spec fn entries_from_token(m: ResponseModel, form: AnswerForm) -> nat {
    request::opt_entry(2, token_item(m, form)).len() + entries_from_retries(m)
}

/// The number of an answer's entries from the retries on.
spec fn entries_from_retries(m: ResponseModel) -> nat {
    request::opt_entry(3, request::opt_uint_item(m.retries)).len()
}

/// The entries of an answer are its key agreement, its token and its retries.
proof fn lemma_answer_flat(m: ResponseModel, form: AnswerForm)
    ensures
        request::flat(answer_entries(m, form)) + map_end(form.streamed) == request::entry_bytes(
            1,
            key_item(m, form),
        ) + from_token(m, form),
        answer_entries(m, form).len() == request::opt_entry(1, key_item(m, form)).len()
            + entries_from_token(m, form),
{
    let none = Seq::<(u8, Seq<u8>)>::empty();
    let e1 = request::opt_entry(1, key_item(m, form));
    let e2 = e1 + request::opt_entry(2, token_item(m, form));
    assert(none + e1 =~= e1);
    assert(request::flat(none) =~= Seq::<u8>::empty());
    request::lemma_flat_append(none, 1, key_item(m, form));
    request::lemma_flat_append(e1, 2, token_item(m, form));
    request::lemma_flat_append(e2, 3, request::opt_uint_item(m.retries));
    assert(request::flat(answer_entries(m, form)) + map_end(form.streamed) =~= request::entry_bytes(
        1,
        key_item(m, form),
    ) + from_token(m, form));
}

/// The end of a map ends the reading.
pub proof fn lemma_end_is_read(st: ResponseModel, streamed: bool, room: nat)
    ensures
        response::entries_read(st, map_end(streamed), known_left(0, streamed), room)
            == ReadingModel::Done(st),
{
    if streamed {
        assert(map_end(streamed).skip(1) =~= Seq::<u8>::empty());
    }
}

/// The retries that were written are read back.
proof fn lemma_retries_read_back(st: ResponseModel, m: ResponseModel, form: AnswerForm, room: nat)
    requires
        st.retries is None,
    ensures
        response::entries_read(
            st,
            from_retries(m, form),
            known_left(entries_from_retries(m), form.streamed),
            room,
        ) == ReadingModel::Done(ResponseModel { retries: m.retries, ..st }),
{
    let end = map_end(form.streamed);
    match m.retries {
        Some(retries) => {
            let item = cbor::cbor_uint(retries);
            let behind = item + end;
            assert(from_retries(m, form) =~= cbor::cbor_uint(3) + behind);
            lemma_key_is_read(st, 3, behind, known_left(1, form.streamed), room);
            encoding::law_uint_reads_back(retries, end, room);
            encoding::law_head_reads_back(0, retries as nat, end);
            assert(behind.skip(item.len() as int) =~= end);
            lemma_end_is_read(ResponseModel { retries: Some(retries), ..st }, form.streamed, room);
        },
        None => {
            assert(from_retries(m, form) =~= end);
            lemma_end_is_read(st, form.streamed, room);
        },
    }
}

/// The token and the retries that were written are read back.
proof fn lemma_token_reads_back(st: ResponseModel, m: ResponseModel, form: AnswerForm, room: nat)
    requires
        st.pin_token is None,
        st.retries is None,
        m.pin_token is Some ==> m.pin_token->Some_0.len() <= u64::MAX,
    ensures
        response::entries_read(
            st,
            from_token(m, form),
            known_left(entries_from_token(m, form), form.streamed),
            room,
        ) == ReadingModel::Done(
            ResponseModel { pin_token: m.pin_token, retries: m.retries, ..st },
        ),
{
    let rest = from_retries(m, form);
    match m.pin_token {
        Some(token) => {
            let item = cbor::cbor_bytes(token);
            let behind = item + rest;
            assert(from_token(m, form) =~= cbor::cbor_uint(2) + behind);
            lemma_key_is_read(st, 2, behind, known_left(entries_from_token(m, form), form.streamed), room);
            encoding::law_bytes_read_back(token, rest, room);
            assert(behind.skip(item.len() as int) =~= rest);
            encoding::law_head_reads_back(2, token.len(), Seq::empty());
            lemma_retries_read_back(ResponseModel { pin_token: Some(token), ..st }, m, form, room);
        },
        None => {
            let left = known_left(entries_from_token(m, form), form.streamed);
            if form.null_token {
                assert(from_token(m, form) =~= cbor::cbor_uint(2) + (seq![0xf6u8] + rest));
                law_null_is_absent(st, 2, rest, left, room);
            } else {
                assert(from_token(m, form) =~= rest);
            }
            lemma_retries_read_back(st, m, form, room);
        },
    }
}

/// `key` is the encoding of a CBOR value that is not null: in an answer it is found, and no more,
/// whatever follows it.
pub open spec fn is_key_item(key: Seq<u8>) -> bool {
    &&& key.len() > 0
    &&& forall|rest: Seq<u8>| #[trigger]
        cbor::any_found(key + rest, 126) == Found::Item(Some(()), key.len())
}

/// A plain value that is not null can be a key: among them are all keys that hold numbers and byte
/// strings only.
pub proof fn law_plain_values_can_be_keys(key: Seq<u8>)
    requires
        values::is_plain(key, 126),
        !cbor::is_null(key),
    ensures
        is_key_item(key),
{
    values::lemma_plain_is_stable(key, Seq::empty(), 126);
    assert forall|rest: Seq<u8>| #[trigger]
        cbor::any_found(key + rest, 126) == Found::Item(Some(()), key.len()) by {
        values::law_plain_values_are_found(key, rest, 126);
    }
}

/// The backend `B` reads the key agreement of `m`, if there is one, as the key that it is.
pub open spec fn key_is_read<B: CryptoBackend>(m: ResponseModel) -> bool {
    m.key_agreement is Some ==> is_key_item(m.key_agreement->Some_0) && forall|
        key: Result<COSEKey, serde_cbor::Error>,
    | #[trigger]
        crypto::parses_key::<B>(m.key_agreement->Some_0, key) ==> key is Ok && key->Ok_0@
            == m.key_agreement->Some_0
}

/// What is read behind the head of an answer is what was written there.
proof fn lemma_entries_read_back<B: CryptoBackend>(
    m: ResponseModel,
    form: AnswerForm,
    input: Seq<u8>,
    r: Result<ClientPinResponse, DecodeError>,
)
    requires
        m.pin_token is Some ==> m.pin_token->Some_0.len() <= u64::MAX,
        key_is_read::<B>(m),
        response::response_read(input) == response::entries_read(
            response::bare_response(),
            request::flat(answer_entries(m, form)) + map_end(form.streamed),
            known_left(answer_entries(m, form).len(), form.streamed),
            126,
        ),
        response::deserialize_outcome::<B>(input, r),
    ensures
        r is Ok,
        r->Ok_0@ == m,
{
    let none = response::bare_response();
    let room = 126nat;
    let left = known_left(answer_entries(m, form).len(), form.streamed);
    let rest = from_token(m, form);
    let all = request::flat(answer_entries(m, form)) + map_end(form.streamed);
    lemma_answer_flat(m, form);
    match m.key_agreement {
        Some(key) => {
            let behind = key + rest;
            assert(all =~= cbor::cbor_uint(1) + behind);
            lemma_key_is_read(none, 1, behind, left, room);
            assert(cbor::any_found(key + rest, 126) == Found::Item(Some(()), key.len()));
            assert(behind.take(key.len() as int) =~= key);
            assert(behind.skip(key.len() as int) =~= rest);
            lemma_token_reads_back(
                ResponseModel { key_agreement: Some(key), ..none },
                m,
                form,
                room,
            );
        },
        None => {
            if form.null_key {
                assert(all =~= cbor::cbor_uint(1) + (seq![0xf6u8] + rest));
                law_null_is_absent(none, 1, rest, left, room);
            } else {
                assert(all =~= rest);
            }
            lemma_token_reads_back(none, m, form, room);
        },
    }
}

/// An answer reads back as it was written, in whatever form: whatever fields the authenticator put
/// in, the platform finds, and no others; a null counts as no field. The key agreement is one CBOR
/// value that the backend reads as the key that it is.
pub proof fn law_answers_read_back<B: CryptoBackend>(
    m: ResponseModel,
    form: AnswerForm,
    r: Result<ClientPinResponse, DecodeError>,
)
    requires
        m.pin_token is Some ==> m.pin_token->Some_0.len() <= u64::MAX,
        key_is_read::<B>(m),
        response::deserialize_outcome::<B>(answer_encoding(m, form), r),
    ensures
        r is Ok,
        r->Ok_0@ == m,
{
    let input = answer_encoding(m, form);
    let count = answer_entries(m, form).len();
    let flat = request::flat(answer_entries(m, form));
    if form.streamed {
        assert(input[0] == 0xbf);
        assert(input.skip(1) =~= flat + map_end(true));
    } else {
        encoding::law_map_head_reads_back(count, flat);
        encoding::law_head_reads_back(5, count, flat);
        assert(input.skip(cbor::cbor_head(5, count).len() as int) =~= flat);
        assert(flat + map_end(false) =~= flat);
    }
    assert(input.skip(0) =~= input);
    lemma_entries_read_back::<B>(m, form, input, r);
}

/// A semantic tag before an answer takes one level and means nothing else.
pub proof fn law_tags_mean_nothing(tag: nat, input: Seq<u8>, levels: nat)
    requires
        tag <= u64::MAX,
    ensures
        response::answer_read(cbor::cbor_head(6, tag) + input, levels) == if levels == 0 {
            ReadingModel::Refused(Refusal::TooDeep)
        } else {
            response::answer_read(input, (levels - 1) as nat)
        },
{
    let head = cbor::cbor_head(6, tag);
    let all = head + input;
    encoding::law_head_reads_back(6, tag, input);
    assert(all.skip(head.len() as int) =~= input);
    if levels > 0 {
        if let Some((tags, _)) = cbor::tags_skipped(input, (levels - 1) as nat) {
            lemma_tags_fit(input, (levels - 1) as nat);
            assert(all.skip((head.len() + tags) as int) =~= input.skip(tags as int));
            if let Some((_, len)) = cbor::map_head(input.skip(tags as int)) {
                assert(all.skip((head.len() + tags + len) as int) =~= input.skip(
                    (tags + len) as int,
                ));
            }
        }
    }
}

/// The tags before an item lie within the bytes.
pub proof fn lemma_tags_fit(b: Seq<u8>, room: nat)
    ensures
        cbor::tags_skipped(b, room) is Some ==> cbor::tags_skipped(b, room)->Some_0.0 <= b.len(),
    decreases b.len(),
{
    if let Some((6, _, len)) = cbor::item_head(b) {
        if room > 0 {
            lemma_tags_fit(b.skip(len as int), (room - 1) as nat);
        }
    }
}

/// An answer behind more tags than there are levels is refused, whatever it is.
pub proof fn law_deep_answers_are_refused(levels: nat, input: Seq<u8>)
    requires
        levels > cbor::MAX_LEVELS,
    ensures
        response::response_read(cbor::nest(levels) + input) == ReadingModel::Refused(
            Refusal::TooDeep,
        ),
{
    let most = cbor::MAX_LEVELS as nat;
    let more = cbor::nest((levels - most) as nat) + input;
    assert(cbor::nest(levels) + input =~= cbor::nest(most) + more);
    cbor::lemma_nest(most, more, most);
    assert(more[0] == 0xc0);
    assert(cbor::item_head(more) == Some((6u8, 0nat, 1nat)));
}

/// A null in the place of a key or of a token stands for a field that is not there: the entry
/// changes nothing of what is read.
pub proof fn law_null_is_absent(
    st: ResponseModel,
    key: u8,
    behind: Seq<u8>,
    left: Option<nat>,
    room: nat,
)
    requires
        left != Some(0nat),
        key == 1 || key == 2,
        !has_field(st, field_of(key as i32)->Some_0),
    ensures
        response::entries_read(st, cbor::cbor_uint(key) + (seq![0xf6u8] + behind), left, room)
            == response::entries_read(st, behind, response::one_less(left), room),
{
    reveal(cbor::any_found);
    reveal(cbor::bytes_found);
    let null = seq![0xf6u8] + behind;
    lemma_key_is_read(st, key, null, left, room);
    assert(null[0] == 0xf6);
    assert(null.skip(1) =~= behind);
    assert(ResponseModel { pin_token: None, ..st } == st || st.pin_token is Some);
}

/// A null in the place of the retries is refused.
pub proof fn law_null_retries_are_refused(
    st: ResponseModel,
    behind: Seq<u8>,
    left: Option<nat>,
    room: nat,
)
    requires
        left != Some(0nat),
        st.retries is None,
    ensures
        response::entries_read(st, cbor::cbor_uint(3) + (seq![0xf6u8] + behind), left, room)
            == ReadingModel::Refused(Refusal::Cbor),
{
    reveal(cbor::byte_found);
    let null = seq![0xf6u8] + behind;
    lemma_key_is_read(st, 3, null, left, room);
    assert(null[0] == 0xf6);
    assert(null.skip(0) =~= null);
}

} // verus!
