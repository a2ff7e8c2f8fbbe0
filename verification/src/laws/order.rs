//! Laws of the order of an answer's entries: it does not matter.

use vstd::prelude::*;

use crate::cbor::{self, Found};
use crate::crypto::{self, COSEKey, CryptoBackend};
use crate::errors::DecodeError;
use crate::laws::{answers, encoding, values};
use crate::response::{self, ClientPinResponse, ReadingModel, ResponseModel};

verus! {

/// An entry of an answer: the key, the bytes in which it is written, and the bytes of its value.
#[verifier::ext_equal]
pub struct Entry {
    pub key: i32,
    pub head: Seq<u8>,
    pub value: Seq<u8>,
}

impl Entry {
    /// The bytes of the entry.
    pub open spec fn bytes(self) -> Seq<u8> {
        self.head + self.value
    }

    /// The entry stands alone, where items can go `room` levels deep: its key is what its first
    /// bytes say, and its value is read from its own bytes, whatever follows them.
    pub open spec fn stands_alone(self, room: nat) -> bool {
        &&& self.head.len() > 0
        &&& cbor::int_found(self.head, room) == Found::Item(self.key, self.head.len())
        &&& self.value.len() > 0
        &&& if self.key == 1 {
            &&& cbor::any_found(self.value, room) matches Found::Item(_, n) && n == self.value.len()
            &&& forall|rest: Seq<u8>| #[trigger]
                cbor::any_found(self.value + rest, room) == cbor::any_found(self.value, room)
        } else if self.key == 2 {
            &&& cbor::bytes_found(self.value, room) matches Found::Item(_, n) && n
                == self.value.len()
            &&& forall|rest: Seq<u8>| #[trigger]
                cbor::bytes_found(self.value + rest, room) == cbor::bytes_found(self.value, room)
        } else if self.key == 3 {
            cbor::byte_found(self.value, room) matches Found::Item(_, n) && n == self.value.len()
        } else {
            true
        }
    }
}

/// What follows an item does not change the tags before it.
proof fn lemma_tags_are_stable(b: Seq<u8>, rest: Seq<u8>, room: nat)
    requires
        cbor::tags_skipped(b, room) is Some,
        cbor::item_head(b.skip(cbor::tags_skipped(b, room)->Some_0.0 as int)) is Some,
    ensures
        cbor::tags_skipped(b + rest, room) == cbor::tags_skipped(b, room),
        cbor::tags_skipped(b, room)->Some_0.0 <= b.len(),
    decreases b.len(),
{
    assert(b.skip(0) =~= b);
    if let Some((6, _, len)) = cbor::item_head(b) {
        values::lemma_head_is_stable(b, rest);
        let behind = b.skip(len as int);
        let less = (room - 1) as nat;
        let more = cbor::tags_skipped(behind, less)->Some_0.0;
        assert((b + rest).skip(len as int) =~= behind + rest);
        answers::lemma_tags_fit(behind, less);
        assert(behind.skip(more as int) =~= b.skip((len + more) as int));
        lemma_tags_are_stable(behind, rest, less);
    } else {
        values::lemma_head_is_stable(b, rest);
    }
}

/// What follows a number does not change it.
pub proof fn lemma_numbers_are_stable(b: Seq<u8>, rest: Seq<u8>, room: nat)
    ensures
        cbor::int_found(b, room) is Item ==> cbor::int_found(b + rest, room) == cbor::int_found(
            b,
            room,
        ),
        cbor::byte_found(b, room) is Item ==> cbor::byte_found(b + rest, room) == cbor::byte_found(
            b,
            room,
        ),
{
    reveal(cbor::int_found);
    reveal(cbor::byte_found);
    if let Some((tags, _)) = cbor::tags_skipped(b, room) {
        let item = b.skip(tags as int);
        if cbor::item_head(item) is Some {
            lemma_tags_are_stable(b, rest, room);
            values::lemma_head_is_stable(item, rest);
            assert((b + rest).skip(tags as int) =~= item + rest);
        }
    }
}

/// The fields `st` with those that the entry `e` brings, if it is accepted. `keys` says what key a
/// value stands for.
pub open spec fn with_entry(
    st: ResponseModel,
    e: Entry,
    room: nat,
    keys: spec_fn(Seq<u8>) -> Option<Seq<u8>>,
) -> Option<ResponseModel> {
    if e.key == 1 && st.key_agreement is None {
        match cbor::any_found(e.value, room) {
            Found::Item(None, _) => Some(st),
            _ => match keys(e.value) {
                Some(key) => Some(ResponseModel { key_agreement: Some(key), ..st }),
                None => None,
            },
        }
    } else if e.key == 2 && st.pin_token is None {
        match cbor::bytes_found(e.value, room) {
            Found::Item(pin_token, _) => Some(ResponseModel { pin_token, ..st }),
            _ => None,
        }
    } else if e.key == 3 && st.retries is None {
        match cbor::byte_found(e.value, room) {
            Found::Item(retries, _) => Some(ResponseModel { retries: Some(retries), ..st }),
            _ => None,
        }
    } else {
        None
    }
}

/// The fields that are read in the end, if the answer is accepted: of the entries at the start of
/// `rest`, into the fields that `st` holds already. `keys` says what key a value stands for.
pub open spec fn finished(
    st: ResponseModel,
    rest: Seq<u8>,
    left: Option<nat>,
    room: nat,
    keys: spec_fn(Seq<u8>) -> Option<Seq<u8>>,
) -> Option<ResponseModel> {
    match response::entries_read(st, rest, left, room) {
        ReadingModel::Done(end) => Some(end),
        ReadingModel::Key { so_far, item, rest, left, room } => match keys(item) {
            Some(key) => match response::entries_read(
                ResponseModel { key_agreement: Some(key), ..so_far },
                rest,
                left,
                room,
            ) {
                ReadingModel::Done(end) => Some(end),
                _ => None,
            },
            None => None,
        },
        ReadingModel::Refused(_) => None,
    }
}

/// An entry is read, and then the entries behind it.
proof fn lemma_entry_is_read(
    st: ResponseModel,
    e: Entry,
    rest: Seq<u8>,
    left: Option<nat>,
    room: nat,
    keys: spec_fn(Seq<u8>) -> Option<Seq<u8>>,
)
    requires
        e.stands_alone(room),
        left != Some(0nat),
    ensures
        finished(st, e.bytes() + rest, left, room, keys) == match with_entry(st, e, room, keys) {
            Some(next) => finished(next, rest, response::one_less(left), room, keys),
            None => None,
        },
{
    let all = e.bytes() + rest;
    let behind = e.value + rest;
    let less = response::one_less(left);
    assert(all =~= e.head + behind);
    lemma_numbers_are_stable(e.head, behind, room);
    lemma_numbers_are_stable(e.value, rest, room);
    if all[0] == 0xff {
        answers::lemma_break_is_no_key(all, room);
    }
    assert(all.skip(e.head.len() as int) =~= behind);
    assert(response::entries_read(st, all, left, room) == response::value_read(
        st,
        e.key,
        behind,
        less,
        room,
    ));
    assert(behind.skip(e.value.len() as int) =~= rest);
    assert(behind.take(e.value.len() as int) =~= e.value);
    if e.key == 1 {
        assert(cbor::any_found(e.value + rest, room) == cbor::any_found(e.value, room));
        if let Some(key) = keys(e.value) {
            answers::law_fields_are_kept(
                ResponseModel { key_agreement: Some(key), ..st },
                rest,
                less,
                room,
            );
        }
    } else if e.key == 2 {
        assert(cbor::bytes_found(e.value + rest, room) == cbor::bytes_found(e.value, room));
    }
}

/// Two neighbouring entries with different keys can be swapped: the same fields are read in the
/// end, or the answer is refused either way.
pub proof fn law_neighbours_can_be_swapped(
    st: ResponseModel,
    a: Entry,
    b: Entry,
    rest: Seq<u8>,
    left: Option<nat>,
    room: nat,
    keys: spec_fn(Seq<u8>) -> Option<Seq<u8>>,
)
    requires
        a.stands_alone(room),
        b.stands_alone(room),
        a.key != b.key,
    ensures
        finished(st, a.bytes() + (b.bytes() + rest), left, room, keys) == finished(
            st,
            b.bytes() + (a.bytes() + rest),
            left,
            room,
            keys,
        ),
{
    if left != Some(0nat) {
        let less = response::one_less(left);
        lemma_entry_is_read(st, a, b.bytes() + rest, left, room, keys);
        lemma_entry_is_read(st, b, a.bytes() + rest, left, room, keys);
        if less != Some(0nat) {
            if let Some(next) = with_entry(st, a, room, keys) {
                lemma_entry_is_read(next, b, rest, less, room, keys);
            }
            if let Some(next) = with_entry(st, b, room, keys) {
                lemma_entry_is_read(next, a, rest, less, room, keys);
            }
            lemma_entries_commute(st, a, b, room, keys);
        }
    }
}

/// The fields `st` with those that first `a` and then `b` bring.
spec fn with_both(
    st: ResponseModel,
    a: Entry,
    b: Entry,
    room: nat,
    keys: spec_fn(Seq<u8>) -> Option<Seq<u8>>,
) -> Option<ResponseModel> {
    match with_entry(st, a, room, keys) {
        Some(next) => with_entry(next, b, room, keys),
        None => None,
    }
}

/// Entries with different keys bring the same fields in either order.
proof fn lemma_entries_commute(
    st: ResponseModel,
    a: Entry,
    b: Entry,
    room: nat,
    keys: spec_fn(Seq<u8>) -> Option<Seq<u8>>,
)
    requires
        a.key != b.key,
    ensures
        with_both(st, a, b, room, keys) == with_both(st, b, a, room, keys),
{
}

/// The bytes of `entries`, one behind the other.
pub open spec fn joined(entries: Seq<Entry>) -> Seq<u8>
    decreases entries.len(),
{
    if entries.len() == 0 {
        Seq::empty()
    } else {
        entries[0].bytes() + joined(entries.skip(1))
    }
}

/// An answer with the entries `entries`, which are counted beforehand or followed by a break byte.
pub open spec fn answer_of(entries: Seq<Entry>, streamed: bool) -> Seq<u8> {
    if streamed {
        seq![0xbfu8] + (joined(entries) + seq![0xffu8])
    } else {
        cbor::cbor_head(5, entries.len()) + joined(entries)
    }
}

/// The fields `st` with those that `entries` bring, one after the other.
spec fn with_entries(
    st: ResponseModel,
    entries: Seq<Entry>,
    room: nat,
    keys: spec_fn(Seq<u8>) -> Option<Seq<u8>>,
) -> Option<ResponseModel>
    decreases entries.len(),
{
    if entries.len() == 0 {
        Some(st)
    } else {
        match with_entry(st, entries[0], room, keys) {
            Some(next) => with_entries(next, entries.skip(1), room, keys),
            None => None,
        }
    }
}

/// All of `entries` stand alone.
pub open spec fn all_stand_alone(entries: Seq<Entry>, room: nat) -> bool {
    forall|i: int| 0 <= i < entries.len() ==> (#[trigger] entries[i]).stands_alone(room)
}

/// No two of `entries` have the same key.
pub open spec fn keys_differ(entries: Seq<Entry>) -> bool {
    forall|i: int, j: int|
        0 <= i < j < entries.len() ==> (#[trigger] entries[i]).key != (#[trigger] entries[j]).key
}

/// All entries of an answer are read, up to its end.
proof fn lemma_entries_are_read(
    st: ResponseModel,
    entries: Seq<Entry>,
    streamed: bool,
    room: nat,
    keys: spec_fn(Seq<u8>) -> Option<Seq<u8>>,
)
    requires
        all_stand_alone(entries, room),
    ensures
        finished(
            st,
            joined(entries) + answers::map_end(streamed),
            answers::known_left(entries.len(), streamed),
            room,
            keys,
        ) == with_entries(st, entries, room, keys),
    decreases entries.len(),
{
    let end = answers::map_end(streamed);
    let left = answers::known_left(entries.len(), streamed);
    if entries.len() == 0 {
        assert(joined(entries) + end =~= end);
        answers::lemma_end_is_read(st, streamed, room);
    } else {
        let first = entries[0];
        let others = entries.skip(1);
        assert forall|i: int| 0 <= i < others.len() implies (#[trigger] others[i]).stands_alone(
            room,
        ) by {
            assert(others[i] == entries[i + 1]);
        }
        assert(joined(entries) + end =~= first.bytes() + (joined(others) + end));
        lemma_entry_is_read(st, first, joined(others) + end, left, room, keys);
        if let Some(next) = with_entry(st, first, room, keys) {
            lemma_entries_are_read(next, others, streamed, room, keys);
        }
    }
}

/// An entry before others is taken first.
proof fn lemma_first_is_taken(
    st: ResponseModel,
    first: Entry,
    others: Seq<Entry>,
    room: nat,
    keys: spec_fn(Seq<u8>) -> Option<Seq<u8>>,
)
    ensures
        with_entries(st, seq![first] + others, room, keys) == match with_entry(
            st,
            first,
            room,
            keys,
        ) {
            Some(next) => with_entries(next, others, room, keys),
            None => None,
        },
{
    assert((seq![first] + others).skip(1) =~= others);
}

/// An entry can be moved to the front of others that have other keys.
proof fn lemma_moves_to_front(
    st: ResponseModel,
    entries: Seq<Entry>,
    i: int,
    room: nat,
    keys: spec_fn(Seq<u8>) -> Option<Seq<u8>>,
)
    requires
        0 <= i < entries.len(),
        keys_differ(entries),
    ensures
        with_entries(st, entries, room, keys) == with_entries(
            st,
            seq![entries[i]] + entries.remove(i),
            room,
            keys,
        ),
    decreases i,
{
    let e = entries[i];
    let moved = seq![e] + entries.remove(i);
    if i == 0 {
        assert(moved =~= entries);
    } else {
        let first = entries[0];
        let others = entries.skip(1);
        assert(keys_differ(others)) by {
            assert forall|j: int, k: int| 0 <= j < k < others.len() implies (
            #[trigger] others[j]).key != (#[trigger] others[k]).key by {
                assert(others[j] == entries[j + 1]);
                assert(others[k] == entries[k + 1]);
            }
        }
        let rest = others.remove(i - 1);
        assert(others[i - 1] == e);
        assert(seq![first] + others =~= entries);
        assert(entries.remove(i) =~= seq![first] + rest);
        lemma_first_is_taken(st, first, others, room, keys);
        if let Some(next) = with_entry(st, first, room, keys) {
            lemma_moves_to_front(next, others, i - 1, room, keys);
            lemma_first_is_taken(next, e, rest, room, keys);
        }
        lemma_first_is_taken(st, e, seq![first] + rest, room, keys);
        if let Some(next) = with_entry(st, e, room, keys) {
            lemma_first_is_taken(next, first, rest, room, keys);
        }
        lemma_entries_commute(st, first, e, room, keys);
    }
}

/// Entries with different keys bring the same fields in any order.
proof fn lemma_order_does_not_matter(
    st: ResponseModel,
    a: Seq<Entry>,
    b: Seq<Entry>,
    room: nat,
    keys: spec_fn(Seq<u8>) -> Option<Seq<u8>>,
)
    requires
        a.to_multiset() == b.to_multiset(),
        keys_differ(a),
    ensures
        with_entries(st, a, room, keys) == with_entries(st, b, room, keys),
        a.len() == b.len(),
    decreases b.len(),
{
    broadcast use vstd::seq_lib::group_to_multiset_ensures;

    assert(a.to_multiset().len() == a.len());
    assert(b.to_multiset().len() == b.len());
    if b.len() > 0 {
        let e = b[0];
        let others = b.skip(1);
        assert(b.contains(e));
        assert(a.to_multiset().count(e) > 0);
        assert(a.contains(e));
        let i = choose|i: int| 0 <= i < a.len() && a[i] == e;
        let rest = a.remove(i);
        lemma_moves_to_front(st, a, i, room, keys);
        lemma_first_is_taken(st, e, rest, room, keys);
        assert(b.remove(0) =~= others);
        assert(rest.to_multiset() =~= a.to_multiset().remove(e));
        assert(others.to_multiset() =~= b.to_multiset().remove(e));
        assert(keys_differ(rest)) by {
            assert forall|j: int, k: int| 0 <= j < k < rest.len() implies (#[trigger] rest[j]).key
                != (#[trigger] rest[k]).key by {
                assert(rest[j] == a[if j < i {
                    j
                } else {
                    j + 1
                }]);
                assert(rest[k] == a[if k < i {
                    k
                } else {
                    k + 1
                }]);
            }
        }
        if let Some(next) = with_entry(st, e, room, keys) {
            lemma_order_does_not_matter(next, rest, others, room, keys);
        }
    }
}

/// The backend `B` always makes the same key of the same item.
pub open spec fn parses_alike<B: CryptoBackend>() -> bool {
    forall|
        item: Seq<u8>,
        a: Result<COSEKey, serde_cbor::Error>,
        b: Result<COSEKey, serde_cbor::Error>,
    | #[trigger]
        crypto::parses_key::<B>(item, a) && #[trigger] crypto::parses_key::<B>(item, b) ==> (
        a is Ok <==> b is Ok) && (a is Ok ==> a->Ok_0@ == b->Ok_0@)
}

/// The key that the backend `B` makes of `item`, if it makes one.
spec fn key_of<B: CryptoBackend>(item: Seq<u8>) -> Option<Seq<u8>> {
    if exists|key: Result<COSEKey, serde_cbor::Error>| #[trigger]
        crypto::parses_key::<B>(item, key) && key is Ok {
        let key = choose|key: Result<COSEKey, serde_cbor::Error>| #[trigger]
            crypto::parses_key::<B>(item, key) && key is Ok;
        Some(key->Ok_0@)
    } else {
        None
    }
}

/// The outcome of reading an answer is what its entries bring.
proof fn lemma_outcome_of_entries<B: CryptoBackend>(
    entries: Seq<Entry>,
    streamed: bool,
    r: Result<ClientPinResponse, DecodeError>,
)
    requires
        parses_alike::<B>(),
        all_stand_alone(entries, 126),
        entries.len() <= u64::MAX,
        response::deserialize_outcome::<B>(answer_of(entries, streamed), r),
    ensures
        match with_entries(
            response::bare_response(),
            entries,
            126,
            |item: Seq<u8>| key_of::<B>(item),
        ) {
            Some(end) => r is Ok && r->Ok_0@ == end,
            None => r is Err,
        },
{
    let none = response::bare_response();
    let keys = |item: Seq<u8>| key_of::<B>(item);
    let input = answer_of(entries, streamed);
    let rest = joined(entries) + answers::map_end(streamed);
    let left = answers::known_left(entries.len(), streamed);
    assert(input.skip(0) =~= input);
    if streamed {
        assert(input[0] == 0xbf);
        assert(input.skip(1) =~= rest);
    } else {
        let head = cbor::cbor_head(5, entries.len());
        encoding::law_head_reads_back(5, entries.len(), joined(entries));
        assert(input.skip(head.len() as int) =~= rest);
    }
    assert(response::response_read(input) == response::entries_read(none, rest, left, 126));
    lemma_entries_are_read(none, entries, streamed, 126, keys);
    match response::response_read(input) {
        ReadingModel::Key { so_far, item, rest, left, room } => {
            let key = choose|key: Result<COSEKey, serde_cbor::Error>| #[trigger]
                crypto::parses_key::<B>(item, key) && match key {
                    Ok(key) => response::ends(
                        response::entries_read(
                            ResponseModel { key_agreement: Some(key@), ..so_far },
                            rest,
                            left,
                            room,
                        ),
                        r,
                    ),
                    Err(e) => r == Err::<ClientPinResponse, DecodeError>(DecodeError::Cbor(e)),
                };
            assert(keys(item) == (match key {
                Ok(key) => Some(key@),
                Err(_) => None,
            }));
        },
        _ => {},
    }
}

/// The order of an answer's entries does not matter: two answers with the same entries, under
/// different keys, are read to the same fields, or both refused. It does not matter either whether
/// the entries are counted beforehand. The backend makes the same key of the same item each time.
pub proof fn law_order_does_not_matter<B: CryptoBackend>(
    a: Seq<Entry>,
    a_streamed: bool,
    b: Seq<Entry>,
    b_streamed: bool,
    r: Result<ClientPinResponse, DecodeError>,
    s: Result<ClientPinResponse, DecodeError>,
)
    requires
        parses_alike::<B>(),
        a.to_multiset() == b.to_multiset(),
        keys_differ(a),
        all_stand_alone(a, 126),
        a.len() <= u64::MAX,
        response::deserialize_outcome::<B>(answer_of(a, a_streamed), r),
        response::deserialize_outcome::<B>(answer_of(b, b_streamed), s),
    ensures
        r is Ok <==> s is Ok,
        r is Ok ==> s->Ok_0@ == r->Ok_0@,
{
    broadcast use vstd::seq_lib::group_to_multiset_ensures;

    let keys = |item: Seq<u8>| key_of::<B>(item);
    lemma_order_does_not_matter(response::bare_response(), a, b, 126, keys);
    assert forall|i: int| 0 <= i < b.len() implies (#[trigger] b[i]).stands_alone(126) by {
        assert(b.contains(b[i]));
        assert(b.to_multiset().count(b[i]) > 0);
        assert(a.contains(b[i]));
    }
    lemma_outcome_of_entries::<B>(a, a_streamed, r);
    lemma_outcome_of_entries::<B>(b, b_streamed, s);
}

/// The entries that an authenticator writes stand alone: a plain key agreement, a token, and a
/// number of retries, each with a key in the shortest form, and a null for a key or a token.
pub proof fn law_written_entries_stand_alone(key: Seq<u8>, token: Seq<u8>, retries: u8, room: nat)
    requires
        room <= cbor::MAX_LEVELS,
        values::is_plain(key, room),
        !cbor::is_null(key),
        token.len() <= u64::MAX,
    ensures
        (Entry { key: 1, head: cbor::cbor_uint(1), value: key }).stands_alone(room),
        (Entry { key: 2, head: cbor::cbor_uint(2), value: cbor::cbor_bytes(token) }).stands_alone(
            room,
        ),
        (Entry { key: 3, head: cbor::cbor_uint(3), value: cbor::cbor_uint(retries) }).stands_alone(
            room,
        ),
        (Entry { key: 1, head: cbor::cbor_uint(1), value: seq![0xf6u8] }).stands_alone(room),
        (Entry { key: 2, head: cbor::cbor_uint(2), value: seq![0xf6u8] }).stands_alone(room),
{
    let none = Seq::<u8>::empty();
    let bytes = cbor::cbor_bytes(token);
    let null = seq![0xf6u8];
    encoding::law_uint_reads_back(1, none, room);
    encoding::law_uint_reads_back(2, none, room);
    encoding::law_uint_reads_back(3, none, room);
    encoding::law_uint_reads_back(retries, none, room);
    encoding::law_head_reads_back(0, retries as nat, none);
    encoding::law_head_reads_back(2, token.len(), none);
    assert(cbor::cbor_uint(1) + none =~= cbor::cbor_uint(1));
    assert(cbor::cbor_uint(2) + none =~= cbor::cbor_uint(2));
    assert(cbor::cbor_uint(3) + none =~= cbor::cbor_uint(3));
    assert(cbor::cbor_uint(retries) + none =~= cbor::cbor_uint(retries));
    values::lemma_plain_is_stable(key, none, room);
    values::law_plain_values_are_found(key, none, room);
    assert(key + none =~= key);
    assert forall|rest: Seq<u8>| #[trigger]
        cbor::any_found(key + rest, room) == cbor::any_found(key, room) by {
        values::law_plain_values_are_found(key, rest, room);
    }
    encoding::law_bytes_read_back(token, none, room);
    assert(bytes + none =~= bytes);
    assert forall|rest: Seq<u8>| #[trigger]
        cbor::bytes_found(bytes + rest, room) == cbor::bytes_found(bytes, room) by {
        encoding::law_bytes_read_back(token, rest, room);
    }
    reveal(cbor::any_found);
    reveal(cbor::bytes_found);
    assert forall|rest: Seq<u8>| #[trigger]
        cbor::any_found(null + rest, room) == cbor::any_found(null, room) by {
        assert((null + rest)[0] == 0xf6);
    }
    assert forall|rest: Seq<u8>| #[trigger]
        cbor::bytes_found(null + rest, room) == cbor::bytes_found(null, room) by {
        assert((null + rest)[0] == 0xf6);
    }
}

} // verus!
