//! Laws of what is written: it reads back, and no two requests are written in the same way.

use vstd::prelude::*;

use crate::cbor::{self, Found};
use crate::request;

verus! {

/// `width` bytes come out, and spell the number again if it fits.
proof fn lemma_be_bytes(n: nat, width: nat)
    ensures
        cbor::be_bytes(n, width).len() == width,
        n < vstd::arithmetic::power::pow(256, width) ==> cbor::be_nat(cbor::be_bytes(n, width))
            == n,
    decreases width,
{
    reveal(vstd::arithmetic::power::pow);
    if width > 0 {
        let high = cbor::be_bytes(n / 256, (width - 1) as nat);
        lemma_be_bytes(n / 256, (width - 1) as nat);
        assert(cbor::be_bytes(n, width).drop_last() =~= high);
    }
}

/// What is read at the start of an item's encoding is the head that was written, whatever
/// follows it.
pub proof fn law_head_reads_back(major: u8, n: nat, rest: Seq<u8>)
    requires
        major < 8,
        n <= u64::MAX,
    ensures
        cbor::item_head(cbor::cbor_head(major as nat, n) + rest) == Some(
            (major, n, cbor::cbor_head(major as nat, n).len()),
        ),
        1 <= cbor::cbor_head(major as nat, n).len() <= 9,
{
    let head = cbor::cbor_head(major as nat, n);
    let all = head + rest;
    let width: nat = if n <= 0x17 {
        0
    } else if n <= 0xff {
        1
    } else if n <= 0xffff {
        2
    } else if n <= 0xffff_ffff {
        4
    } else {
        8
    };
    lemma_be_bytes(n, width);
    assert(vstd::arithmetic::power::pow(256, width) > n || width == 0) by {
        reveal_with_fuel(vstd::arithmetic::power::pow, 9);
        assert(width == 0 || width == 1 || width == 2 || width == 4 || width == 8);
    }
    assert(head.len() == 1 + width);
    assert(all[0] == head[0]);
    if width > 0 {
        assert(all.subrange(1, 1 + width as int) =~= cbor::be_bytes(n, width));
    }
}

/// The head of a map with a given number of entries reads back as that number.
pub proof fn law_map_head_reads_back(n: nat, rest: Seq<u8>)
    requires
        n <= u64::MAX,
    ensures
        cbor::map_head(cbor::cbor_head(5, n) + rest) == Some(
            (Some(n), cbor::cbor_head(5, n).len()),
        ),
{
    law_head_reads_back(5, n, rest);
}

/// A number that was written is read back, both as a key and as a byte, at any depth and whatever
/// follows it.
pub proof fn law_uint_reads_back(n: u8, rest: Seq<u8>, room: nat)
    ensures
        cbor::int_found(cbor::cbor_uint(n) + rest, room) == Found::Item(
            n as i32,
            cbor::cbor_uint(n).len(),
        ),
        cbor::byte_found(cbor::cbor_uint(n) + rest, room) == Found::Item(
            n,
            cbor::cbor_uint(n).len(),
        ),
{
    reveal(cbor::int_found);
    reveal(cbor::byte_found);
    let all = cbor::cbor_uint(n) + rest;
    law_head_reads_back(0, n as nat, rest);
    assert(all.skip(0) =~= all);
}

/// A byte string that was written is read back, at any depth and whatever follows it.
pub proof fn law_bytes_read_back(data: Seq<u8>, rest: Seq<u8>, room: nat)
    requires
        data.len() <= u64::MAX,
    ensures
        cbor::bytes_found(cbor::cbor_bytes(data) + rest, room) == Found::Item(
            Some(data),
            cbor::cbor_bytes(data).len(),
        ),
{
    reveal(cbor::bytes_found);
    let head = cbor::cbor_head(2, data.len());
    let all = cbor::cbor_bytes(data) + rest;
    assert(all =~= head + (data + rest));
    law_head_reads_back(2, data.len(), data + rest);
    assert(all[0] / 32 == 2);
    assert(all.skip(0) =~= all);
    assert(all.subrange(head.len() as int, (head.len() + data.len()) as int) =~= data);
}

/// The entries of a request have the keys one to six, in rising order, and the subcommand is
/// always among them.
pub proof fn law_request_keys_rise(m: request::RequestModel)
    ensures
        1 <= m.entries().len() <= 6,
        forall|i: int| 0 <= i < m.entries().len() ==> 1 <= (#[trigger] m.entries()[i]).0 <= 6,
        forall|i: int, j: int|
            0 <= i < j < m.entries().len() ==> (#[trigger] m.entries()[i]).0 < (
            #[trigger] m.entries()[j]).0,
        m.entries().contains((2u8, cbor::cbor_uint(m.subcommand.number()))),
{
    let before = request::opt_entry(1, request::opt_uint_item(m.pin_protocol));
    assert(m.entries()[before.len() as int] == (2u8, cbor::cbor_uint(m.subcommand.number())));
}

/// A request announces as many entries as it has.
pub proof fn law_request_announces_its_entries(m: request::RequestModel)
    ensures
        cbor::map_head(m.encoding()) == Some((Some(m.entries().len()), 1nat)),
{
    law_request_keys_rise(m);
    law_map_head_reads_back(m.entries().len(), request::flat(m.entries()));
}

/// `tail` is empty, or starts with a key above `key`.
spec fn starts_above(tail: Seq<u8>, key: u8) -> bool {
    tail.len() == 0 || key < tail[0]
}

/// Neither of two items goes on where the other ends.
pub open spec fn prefix_free(a: Seq<u8>, b: Seq<u8>) -> bool {
    (a.is_prefix_of(b) || b.is_prefix_of(a)) ==> a == b
}

/// Where two rests of requests agree, they agree on whether there is an entry with `key`, and on
/// what is behind the key or behind the missing entry.
proof fn lemma_same_presence(
    key: u8,
    a: Option<Seq<u8>>,
    b: Option<Seq<u8>>,
    s: Seq<u8>,
    t: Seq<u8>,
)
    requires
        key <= 6,
        request::entry_bytes(key, a) + s == request::entry_bytes(key, b) + t,
        starts_above(s, key),
        starts_above(t, key),
    ensures
        a is Some <==> b is Some,
        a is None ==> s == t,
        a is Some ==> a->Some_0 + s == b->Some_0 + t,
{
    let x = request::entry_bytes(key, a) + s;
    let y = request::entry_bytes(key, b) + t;
    assert(cbor::cbor_uint(key) =~= seq![key]);
    if a is Some {
        assert(x[0] == key);
        assert(x.skip(1) =~= a->Some_0 + s);
    } else {
        assert(x =~= s);
    }
    if b is Some {
        assert(y[0] == key);
        assert(y.skip(1) =~= b->Some_0 + t);
    } else {
        assert(y =~= t);
    }
}

/// As `lemma_same_presence`, for entries with byte strings: they agree on the bytes as well.
proof fn lemma_same_bytes(
    key: u8,
    a: Option<Seq<u8>>,
    b: Option<Seq<u8>>,
    s: Seq<u8>,
    t: Seq<u8>,
)
    requires
        key <= 6,
        a is Some ==> a->Some_0.len() <= u64::MAX,
        b is Some ==> b->Some_0.len() <= u64::MAX,
        request::entry_bytes(key, request::opt_bytes_item(a)) + s == request::entry_bytes(
            key,
            request::opt_bytes_item(b),
        ) + t,
        starts_above(s, key),
        starts_above(t, key),
    ensures
        a == b,
        s == t,
{
    lemma_same_presence(key, request::opt_bytes_item(a), request::opt_bytes_item(b), s, t);
    if a is Some {
        let x = cbor::cbor_bytes(a->Some_0);
        let y = cbor::cbor_bytes(b->Some_0);
        law_bytes_read_back(a->Some_0, s, 0);
        law_bytes_read_back(b->Some_0, t, 0);
        assert((x + s).skip(x.len() as int) =~= s);
        assert((y + t).skip(y.len() as int) =~= t);
    }
}

/// As `lemma_same_presence`, for entries with numbers: they agree on the number as well.
proof fn lemma_same_uint(key: u8, a: Option<u8>, b: Option<u8>, s: Seq<u8>, t: Seq<u8>)
    requires
        key <= 6,
        request::entry_bytes(key, request::opt_uint_item(a)) + s == request::entry_bytes(
            key,
            request::opt_uint_item(b),
        ) + t,
        starts_above(s, key),
        starts_above(t, key),
    ensures
        a == b,
        s == t,
{
    lemma_same_presence(key, request::opt_uint_item(a), request::opt_uint_item(b), s, t);
    if a is Some {
        let x = cbor::cbor_uint(a->Some_0);
        let y = cbor::cbor_uint(b->Some_0);
        law_uint_reads_back(a->Some_0, s, 0);
        law_uint_reads_back(b->Some_0, t, 0);
        assert((x + s).skip(x.len() as int) =~= s);
        assert((y + t).skip(y.len() as int) =~= t);
    }
}

/// As `lemma_same_presence`, for entries with items of which neither goes on where the other ends.
proof fn lemma_same_item(
    key: u8,
    a: Option<Seq<u8>>,
    b: Option<Seq<u8>>,
    s: Seq<u8>,
    t: Seq<u8>,
)
    requires
        key <= 6,
        a is Some && b is Some ==> prefix_free(a->Some_0, b->Some_0),
        request::entry_bytes(key, a) + s == request::entry_bytes(key, b) + t,
        starts_above(s, key),
        starts_above(t, key),
    ensures
        a == b,
        s == t,
{
    lemma_same_presence(key, a, b, s, t);
    if a is Some {
        let x = a->Some_0;
        let y = b->Some_0;
        if x.len() <= y.len() {
            assert(x =~= (x + s).take(x.len() as int));
            assert(x =~= y.take(x.len() as int));
        } else {
            assert(y =~= (y + t).take(y.len() as int));
            assert(y =~= x.take(y.len() as int));
        }
        assert((x + s).skip(x.len() as int) =~= s);
        assert((y + t).skip(y.len() as int) =~= t);
    }
}

/// The rest of a request from the entry with the key `key` on.
spec fn tail_from(m: request::RequestModel, key: u8) -> Seq<u8>
    decreases 7 - key,
{
    if key == 1 {
        request::entry_bytes(1, request::opt_uint_item(m.pin_protocol)) + tail_from(m, 2)
    } else if key == 2 {
        request::entry_bytes(2, Some(cbor::cbor_uint(m.subcommand.number()))) + tail_from(m, 3)
    } else if key == 3 {
        request::entry_bytes(3, m.key_agreement) + tail_from(m, 4)
    } else if key == 4 {
        request::entry_bytes(4, request::opt_bytes_item(m.pin_auth)) + tail_from(m, 5)
    } else if key == 5 {
        request::entry_bytes(5, request::opt_bytes_item(m.new_pin_enc)) + tail_from(m, 6)
    } else if key == 6 {
        request::entry_bytes(6, request::opt_bytes_item(m.pin_hash_enc))
    } else {
        Seq::empty()
    }
}

/// The rest of a request starts with the key that it is named by, or a higher one.
proof fn lemma_tail_starts(m: request::RequestModel, key: u8)
    requires
        1 <= key <= 7,
    ensures
        starts_above(tail_from(m, key), (key - 1) as u8),
    decreases 7 - key,
{
    if key < 7 {
        lemma_tail_starts(m, (key + 1) as u8);
        assert(cbor::cbor_uint(key) =~= seq![key]);
    }
}

/// The entries of a request are its rest from the first key on.
proof fn lemma_flat_is_tail(m: request::RequestModel)
    ensures
        request::flat(m.entries()) == tail_from(m, 1),
{
    request::lemma_request_flat(m);
    reveal_with_fuel(tail_from, 7);
    let e1 = request::entry_bytes(1, request::opt_uint_item(m.pin_protocol));
    let e2 = request::entry_bytes(2, Some(cbor::cbor_uint(m.subcommand.number())));
    let e3 = request::entry_bytes(3, m.key_agreement);
    let e4 = request::entry_bytes(4, request::opt_bytes_item(m.pin_auth));
    let e5 = request::entry_bytes(5, request::opt_bytes_item(m.new_pin_enc));
    let e6 = request::entry_bytes(6, request::opt_bytes_item(m.pin_hash_enc));
    assert(tail_from(m, 6) == e6);
    lemma_right_assoc(e1, e2, e3, e4, e5, e6);
}

/// Six pieces in a row are the same from the left and from the right.
proof fn lemma_right_assoc(
    a: Seq<u8>,
    b: Seq<u8>,
    c: Seq<u8>,
    d: Seq<u8>,
    e: Seq<u8>,
    f: Seq<u8>,
)
    ensures
        a + b + c + d + e + f == a + (b + (c + (d + (e + f)))),
{
    assert(a + b + c + d + e + f =~= a + (b + (c + (d + (e + f)))));
}

/// No two requests are written in the same way: what the authenticator receives tells all that the
/// request holds. Of the keys it is only asked that neither goes on where the other ends;
/// `law_plain_keys_do_not_run_on` shows that of plain values.
pub proof fn law_requests_are_told_apart(m: request::RequestModel, n: request::RequestModel)
    requires
        m.encoding() == n.encoding(),
        m.key_agreement is Some && n.key_agreement is Some ==> prefix_free(
            m.key_agreement->Some_0,
            n.key_agreement->Some_0,
        ),
        fits(m),
        fits(n),
    ensures
        m == n,
{
    law_request_keys_rise(m);
    law_request_keys_rise(n);
    lemma_flat_is_tail(m);
    lemma_flat_is_tail(n);
    assert(m.encoding().skip(1) =~= tail_from(m, 1));
    assert(n.encoding().skip(1) =~= tail_from(n, 1));
    lemma_tail_starts(m, 2);
    lemma_tail_starts(n, 2);
    lemma_same_uint(1, m.pin_protocol, n.pin_protocol, tail_from(m, 2), tail_from(n, 2));
    lemma_tail_starts(m, 3);
    lemma_tail_starts(n, 3);
    lemma_same_uint(
        2,
        Some(m.subcommand.number()),
        Some(n.subcommand.number()),
        tail_from(m, 3),
        tail_from(n, 3),
    );
    lemma_tail_starts(m, 4);
    lemma_tail_starts(n, 4);
    lemma_same_item(3, m.key_agreement, n.key_agreement, tail_from(m, 4), tail_from(n, 4));
    lemma_tail_starts(m, 5);
    lemma_tail_starts(n, 5);
    lemma_same_bytes(4, m.pin_auth, n.pin_auth, tail_from(m, 5), tail_from(n, 5));
    lemma_tail_starts(m, 6);
    lemma_tail_starts(n, 6);
    lemma_same_bytes(5, m.new_pin_enc, n.new_pin_enc, tail_from(m, 6), tail_from(n, 6));
    let none = Seq::<u8>::empty();
    assert(tail_from(m, 6) + none =~= tail_from(m, 6));
    assert(tail_from(n, 6) + none =~= tail_from(n, 6));
    lemma_same_bytes(6, m.pin_hash_enc, n.pin_hash_enc, none, none);
    law_subcommands_are_told_apart(m.subcommand, n.subcommand);
}

/// The byte strings of a request are no longer than a CBOR head can say.
pub open spec fn fits(m: request::RequestModel) -> bool {
    &&& m.pin_auth is Some ==> m.pin_auth->Some_0.len() <= u64::MAX
    &&& m.new_pin_enc is Some ==> m.new_pin_enc->Some_0.len() <= u64::MAX
    &&& m.pin_hash_enc is Some ==> m.pin_hash_enc->Some_0.len() <= u64::MAX
}

/// No two subcommands have the same number.
pub proof fn law_subcommands_are_told_apart(
    a: request::PINSubcommand,
    b: request::PINSubcommand,
)
    requires
        a.number() == b.number(),
    ensures
        a == b,
{
}

} // verus!
