//! Laws of what `serde_cbor` takes for one value: what is written is, if the keys in it are plain.

use vstd::prelude::*;

use crate::cbor::{self, Found};
use crate::laws::encoding;
use crate::request;

verus! {

/// What follows a head does not change it.
pub proof fn lemma_head_is_stable(b: Seq<u8>, behind: Seq<u8>)
    requires
        cbor::item_head(b) is Some,
    ensures
        cbor::item_head(b + behind) == cbor::item_head(b),
        0 < cbor::item_head(b)->Some_0.2 <= b.len(),
{
    let all = b + behind;
    let width = cbor::argument_width(b[0] % 32);
    assert(all[0] == b[0]);
    assert(all.subrange(1, 1 + width as int) =~= b.subrange(1, 1 + width as int));
}

/// What follows a plain value does not change its length, and the value lies within its bytes.
pub proof fn lemma_plain_is_stable(b: Seq<u8>, behind: Seq<u8>, room: nat)
    requires
        cbor::plain_len(b, room) is Some,
    ensures
        cbor::plain_len(b + behind, room) == cbor::plain_len(b, room),
        0 < cbor::plain_len(b, room)->Some_0 <= b.len(),
    decreases b.len(), 0nat,
{
    lemma_head_is_stable(b, behind);
    match cbor::item_head(b) {
        Some((4, n, len)) => {
            assert((b + behind).skip(len as int) =~= b.skip(len as int) + behind);
            lemma_items_are_stable(b.skip(len as int), behind, n, (room - 1) as nat);
        },
        Some((5, n, len)) => {
            assert((b + behind).skip(len as int) =~= b.skip(len as int) + behind);
            lemma_entries_are_stable(b.skip(len as int), behind, n, (room - 1) as nat);
        },
        Some((6, _, len)) => {
            assert((b + behind).skip(len as int) =~= b.skip(len as int) + behind);
            lemma_plain_is_stable(b.skip(len as int), behind, (room - 1) as nat);
        },
        _ => {},
    }
}

/// As `lemma_plain_is_stable`, for the items of a plain array.
pub proof fn lemma_items_are_stable(b: Seq<u8>, behind: Seq<u8>, n: nat, room: nat)
    requires
        cbor::plain_items_len(b, n, room) is Some,
    ensures
        cbor::plain_items_len(b + behind, n, room) == cbor::plain_items_len(b, n, room),
        cbor::plain_items_len(b, n, room)->Some_0 <= b.len(),
    decreases b.len(), n,
{
    if n > 0 {
        let item = cbor::plain_len(b, room)->Some_0;
        lemma_plain_is_stable(b, behind, room);
        assert((b + behind).skip(item as int) =~= b.skip(item as int) + behind);
        lemma_items_are_stable(b.skip(item as int), behind, (n - 1) as nat, room);
    }
}

/// As `lemma_plain_is_stable`, for the entries of a plain map.
pub proof fn lemma_entries_are_stable(b: Seq<u8>, behind: Seq<u8>, n: nat, room: nat)
    requires
        cbor::plain_entries_len(b, n, room) is Some,
    ensures
        cbor::plain_entries_len(b + behind, n, room) == cbor::plain_entries_len(b, n, room),
        cbor::plain_entries_len(b, n, room)->Some_0 <= b.len(),
    decreases b.len(), n,
{
    if n > 0 {
        lemma_head_is_stable(b, behind);
        let key = cbor::plain_int(b)->Some_0.1;
        let value = cbor::plain_len(b.skip(key as int), room)->Some_0;
        assert((b + behind).skip(key as int) =~= b.skip(key as int) + behind);
        lemma_plain_is_stable(b.skip(key as int), behind, room);
        assert((b + behind).skip((key + value) as int) =~= b.skip((key + value) as int) + behind);
        lemma_entries_are_stable(b.skip((key + value) as int), behind, (n - 1) as nat, room);
    }
}

/// A plain value that is put deeper stays one, if it can go as much deeper.
pub proof fn lemma_plain_nests(levels: nat, b: Seq<u8>, room: nat)
    ensures
        cbor::plain_len(cbor::nest(levels) + b, room + levels) == cbor::plus(
            levels,
            cbor::plain_len(b, room),
        ),
    decreases levels,
{
    let all = cbor::nest(levels) + b;
    if levels == 0 {
        assert(all =~= b);
    } else {
        let less = (levels - 1) as nat;
        assert(all[0] == 0xc0);
        assert(cbor::item_head(all) == Some((6u8, 0nat, 1nat)));
        assert(all.skip(1) =~= cbor::nest(less) + b);
        lemma_plain_nests(less, b, room);
        assert(room + levels - 1 == room + less);
    }
}

/// `item` is one plain value, at most `room` levels deep.
pub open spec fn is_plain(item: Seq<u8>, room: nat) -> bool {
    cbor::plain_len(item, room) == Some(item.len())
}

/// Numbers and byte strings are plain values as they are written.
pub proof fn lemma_scalars_are_plain(n: u8, data: Seq<u8>, room: nat)
    ensures
        is_plain(cbor::cbor_uint(n), room),
        data.len() <= u64::MAX ==> is_plain(cbor::cbor_bytes(data), room),
{
    let none = Seq::<u8>::empty();
    encoding::law_head_reads_back(0, n as nat, none);
    assert(cbor::cbor_uint(n) + none =~= cbor::cbor_uint(n));
    if data.len() <= u64::MAX {
        encoding::law_head_reads_back(2, data.len(), data);
    }
}

/// One more entry behind the entries of a plain map.
proof fn lemma_entry_is_appended(b: Seq<u8>, n: nat, key: u8, item: Seq<u8>, room: nat)
    requires
        cbor::plain_entries_len(b, n, room) == Some(b.len()),
        is_plain(item, room),
    ensures
        cbor::plain_entries_len(b + cbor::cbor_uint(key) + item, n + 1, room) == Some(
            (b + cbor::cbor_uint(key) + item).len(),
        ),
    decreases b.len(),
{
    let head = cbor::cbor_uint(key);
    let entry = head + item;
    let all = b + head + item;
    assert(all =~= b + entry);
    if n == 0 {
        let none = Seq::<u8>::empty();
        assert(all =~= head + item);
        encoding::law_head_reads_back(0, key as nat, item);
        assert(all.skip(head.len() as int) =~= item);
        lemma_plain_is_stable(item, none, room);
        assert(cbor::plain_entries_len(
            all.skip((head.len() + item.len()) as int),
            0,
            room,
        ) == Some(0nat));
    } else {
        lemma_head_is_stable(b, entry);
        let k = cbor::plain_int(b)->Some_0.1;
        let v = cbor::plain_len(b.skip(k as int), room)->Some_0;
        let rest = b.skip((k + v) as int);
        assert(all.skip(k as int) =~= b.skip(k as int) + entry);
        lemma_plain_is_stable(b.skip(k as int), entry, room);
        assert(all.skip((k + v) as int) =~= rest + head + item);
        lemma_entry_is_appended(rest, (n - 1) as nat, key, item, room);
    }
}

/// The entries of a map whose items are plain are those of a plain map.
proof fn lemma_flat_is_plain(entries: Seq<(u8, Seq<u8>)>, room: nat)
    requires
        forall|i: int| 0 <= i < entries.len() ==> is_plain((#[trigger] entries[i]).1, room),
    ensures
        cbor::plain_entries_len(request::flat(entries), entries.len(), room) == Some(
            request::flat(entries).len(),
        ),
    decreases entries.len(),
{
    if entries.len() > 0 {
        let before = entries.drop_last();
        assert forall|i: int| 0 <= i < before.len() implies is_plain(
            (#[trigger] before[i]).1,
            room,
        ) by {
            assert(before[i] == entries[i]);
        }
        lemma_flat_is_plain(before, room);
        lemma_entry_is_appended(
            request::flat(before),
            before.len(),
            entries.last().0,
            entries.last().1,
            room,
        );
    }
}

/// A map whose entries are written one behind the other, with plain items, is one CBOR value.
pub proof fn law_plain_maps_are_values(entries: Seq<(u8, Seq<u8>)>)
    requires
        entries.len() <= u64::MAX,
        forall|i: int| 0 <= i < entries.len() ==> is_plain((#[trigger] entries[i]).1, 126),
    ensures
        cbor::is_cbor_value(cbor::cbor_head(5, entries.len()) + request::flat(entries)),
{
    let head = cbor::cbor_head(5, entries.len());
    let all = head + request::flat(entries);
    encoding::law_head_reads_back(5, entries.len(), request::flat(entries));
    lemma_flat_is_plain(entries, 126);
    assert(all.skip(head.len() as int) =~= request::flat(entries));
}

/// A request is one CBOR value, if its key is a plain one or there is none.
pub proof fn law_requests_are_values(m: request::RequestModel)
    requires
        encoding::fits(m),
        m.key_agreement is Some ==> is_plain(m.key_agreement->Some_0, 126),
    ensures
        cbor::is_cbor_value(m.encoding()),
{
    let none = Seq::<u8>::empty();
    encoding::law_request_keys_rise(m);
    if m.pin_protocol is Some {
        lemma_scalars_are_plain(m.pin_protocol->Some_0, none, 126);
    }
    lemma_scalars_are_plain(m.subcommand.number(), none, 126);
    if m.pin_auth is Some {
        lemma_scalars_are_plain(0, m.pin_auth->Some_0, 126);
    }
    if m.new_pin_enc is Some {
        lemma_scalars_are_plain(0, m.new_pin_enc->Some_0, 126);
    }
    if m.pin_hash_enc is Some {
        lemma_scalars_are_plain(0, m.pin_hash_enc->Some_0, 126);
    }
    law_plain_maps_are_values(m.entries());
}

/// A plain value is found whole, whatever follows it, unless it is a null.
pub proof fn law_plain_values_are_found(item: Seq<u8>, behind: Seq<u8>, room: nat)
    requires
        room <= cbor::MAX_LEVELS,
        is_plain(item, room),
        !cbor::is_null(item),
    ensures
        cbor::any_found(item + behind, room) == Found::Item(Some(()), item.len()),
{
    reveal(cbor::any_found);
    let levels = cbor::used(room);
    lemma_plain_is_stable(item, behind, room);
    lemma_plain_nests(levels, item + behind, room);
    assert(room + levels == cbor::MAX_LEVELS);
    assert((item + behind)[0] == item[0]);
}

/// A null is a plain value.
pub proof fn lemma_null_is_plain(room: nat)
    ensures
        is_plain(seq![0xf6u8], room),
{
    assert(cbor::item_head(seq![0xf6u8]) == Some((7u8, 22nat, 1nat)));
}

/// Of two plain values neither goes on where the other ends.
pub proof fn law_plain_keys_do_not_run_on(a: Seq<u8>, b: Seq<u8>)
    requires
        is_plain(a, 126),
        is_plain(b, 126),
    ensures
        encoding::prefix_free(a, b),
{
    if a.is_prefix_of(b) {
        let behind = b.skip(a.len() as int);
        assert(a + behind =~= b);
        lemma_plain_is_stable(a, behind, 126);
        assert(a =~= b);
    }
    if b.is_prefix_of(a) {
        let behind = a.skip(b.len() as int);
        assert(b + behind =~= a);
        lemma_plain_is_stable(b, behind, 126);
        assert(a =~= b);
    }
}

/// No two requests whose keys are plain values, or that have none, are written in the same way.
pub proof fn law_plain_requests_are_told_apart(m: request::RequestModel, n: request::RequestModel)
    requires
        m.encoding() == n.encoding(),
        m.key_agreement is Some ==> is_plain(m.key_agreement->Some_0, 126),
        n.key_agreement is Some ==> is_plain(n.key_agreement->Some_0, 126),
        encoding::fits(m),
        encoding::fits(n),
    ensures
        m == n,
{
    if m.key_agreement is Some && n.key_agreement is Some {
        law_plain_keys_do_not_run_on(m.key_agreement->Some_0, n.key_agreement->Some_0);
    }
    encoding::law_requests_are_told_apart(m, n);
}

} // verus!
