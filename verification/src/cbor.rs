//! The CBOR that the commands write and read: heads and framing here, data items by `serde_cbor`.

use serde::Deserialize;
use vstd::prelude::*;
use vstd::slice::slice_subrange;

use crate::errors::DecodeError;

verus! {

/// The error type of `serde_cbor`, carried through as it is.
#[verifier::external_type_specification]
#[verifier::external_body]
pub struct ExCborError(serde_cbor::Error);

/// The number that the bytes `s` spell, most significant byte first.
pub open spec fn be_nat(s: Seq<u8>) -> nat
    decreases s.len(),
{
    if s.len() == 0 {
        0
    } else {
        be_nat(s.drop_last()) * 256 + s.last() as nat
    }
}

/// The last `width` bytes of `n`, most significant byte first.
pub open spec fn be_bytes(n: nat, width: nat) -> Seq<u8>
    decreases width,
{
    if width == 0 {
        Seq::empty()
    } else {
        be_bytes(n / 256, (width - 1) as nat).push((n % 256) as u8)
    }
}

/// The head of a CBOR item: the major type and its argument `n`, in the shortest form.
pub open spec fn cbor_head(major: nat, n: nat) -> Seq<u8> {
    let top = major * 32;
    if n <= 0x17 {
        seq![(top + n) as u8]
    } else if n <= 0xff {
        seq![(top + 24) as u8] + be_bytes(n, 1)
    } else if n <= 0xffff {
        seq![(top + 25) as u8] + be_bytes(n, 2)
    } else if n <= 0xffff_ffff {
        seq![(top + 26) as u8] + be_bytes(n, 4)
    } else {
        seq![(top + 27) as u8] + be_bytes(n, 8)
    }
}

/// An unsigned integer, as a CBOR item.
pub open spec fn cbor_uint(n: u8) -> Seq<u8> {
    cbor_head(0, n as nat)
}

/// A byte string, as a CBOR item.
pub open spec fn cbor_bytes(data: Seq<u8>) -> Seq<u8> {
    cbor_head(2, data.len()) + data
}

/// Calls `serde_cbor::to_vec` on a `u8`. It writes the head of an unsigned integer with argument
/// `n`; writing to a vector does not fail.
#[verifier::external_body]
pub(crate) fn encode_uint(n: u8) -> (r: Result<Vec<u8>, serde_cbor::Error>)
    ensures
        r is Ok,
        r->Ok_0@ == cbor_uint(n),
{
    serde_cbor::to_vec(&n)
}

/// Calls `serde_cbor::to_vec` on `serde_bytes::ByteBuf::from(data)`. It writes the head of a byte
/// string with the length of `data`, then `data`; writing to a vector does not fail.
#[verifier::external_body]
pub(crate) fn encode_bytes(data: &[u8]) -> (r: Result<Vec<u8>, serde_cbor::Error>)
    ensures
        r is Ok,
        r->Ok_0@ == cbor_bytes(data@),
{
    serde_cbor::to_vec(&serde_bytes::ByteBuf::from(data))
}

/// The number of bytes behind an initial byte with the low bits `info`, in which the argument
/// stands; up to 23, `info` is the argument itself.
pub open spec fn argument_width(info: u8) -> nat {
    if info == 24 {
        1
    } else if info == 25 {
        2
    } else if info == 26 {
        4
    } else if info == 27 {
        8
    } else {
        0
    }
}

/// The head at the start of `b`: the major type, the argument, and the number of bytes of the
/// head. A break, an indefinite length and a reserved form have none.
pub open spec fn item_head(b: Seq<u8>) -> Option<(u8, nat, nat)> {
    if b.len() == 0 {
        None
    } else {
        let info = b[0] % 32;
        let width = argument_width(info);
        if info > 27 || b.len() <= width {
            None
        } else {
            let argument = if width == 0 {
                info as nat
            } else {
                be_nat(b.subrange(1, 1 + width as int))
            };
            Some((b[0] / 32, argument, 1 + width))
        }
    }
}

/// How many levels deep `serde_cbor` reads: arrays, maps and semantic tags each open one.
pub const MAX_LEVELS: u8 = 127;

/// Whether `input` starts with a null.
pub open spec fn is_null(input: Seq<u8>) -> bool {
    input.len() > 0 && input[0] == 0xf6
}

/// Whether `input` starts with a byte string of definite length.
pub open spec fn is_byte_string(input: Seq<u8>) -> bool {
    item_head(input) matches Some((2, _, _))
}

/// The number of bytes of the semantic tags at the start of `b`, and the number of levels left
/// behind them out of `room`. Where they are more than `room`, there is none.
pub open spec fn tags_skipped(b: Seq<u8>, room: nat) -> Option<(nat, nat)>
    decreases b.len(),
{
    match item_head(b) {
        Some((6, _, len)) => if room == 0 {
            None
        } else {
            match tags_skipped(b.skip(len as int), (room - 1) as nat) {
                Some((more, left)) => Some((len + more, left)),
                None => None,
            }
        },
        _ => Some((0, room)),
    }
}

/// The integer at the start of `input`, with the number of bytes that it takes.
pub open spec fn plain_int(input: Seq<u8>) -> Option<(int, nat)> {
    match item_head(input) {
        Some((0, n, len)) => Some((n as int, len)),
        Some((1, n, len)) => Some((-1 - n, len)),
        _ => None,
    }
}

/// The byte string of definite length at the start of `input`, with the number of bytes that it
/// takes.
pub open spec fn plain_bytes(input: Seq<u8>) -> Option<(Seq<u8>, nat)> {
    match item_head(input) {
        Some((2, n, len)) if len + n <= input.len() => Some(
            (input.subrange(len as int, (len + n) as int), len + n),
        ),
        _ => None,
    }
}

/// The number of bytes of the plain value at the start of `b`: an integer, a byte string, a truth
/// value, a null, an undefined, an array of plain values, or a map with integers for keys and plain
/// values behind them, all of definite length and at most `room` levels deep, with or without tags.
pub open spec fn plain_len(b: Seq<u8>, room: nat) -> Option<nat>
    decreases b.len(), 0nat,
{
    match item_head(b) {
        Some((0, _, len)) => Some(len),
        Some((1, _, len)) => Some(len),
        Some((2, n, len)) if len + n <= b.len() => Some(len + n),
        Some((4, n, len)) if room > 0 => plus(
            len,
            plain_items_len(b.skip(len as int), n, (room - 1) as nat),
        ),
        Some((5, n, len)) if room > 0 => plus(
            len,
            plain_entries_len(b.skip(len as int), n, (room - 1) as nat),
        ),
        Some((6, _, len)) if room > 0 => plus(
            len,
            plain_len(b.skip(len as int), (room - 1) as nat),
        ),
        Some((7, n, len)) if 20 <= n <= 23 && len == 1 => Some(len),
        _ => None,
    }
}

/// The number of bytes of the `n` items of a plain array at the start of `b`.
pub open spec fn plain_items_len(b: Seq<u8>, n: nat, room: nat) -> Option<nat>
    decreases b.len(), n,
{
    if n == 0 {
        Some(0)
    } else {
        match plain_len(b, room) {
            Some(item) if 0 < item <= b.len() => plus(
                item,
                plain_items_len(b.skip(item as int), (n - 1) as nat, room),
            ),
            _ => None,
        }
    }
}

/// The number of bytes of the `n` entries of a plain map at the start of `b`.
pub open spec fn plain_entries_len(b: Seq<u8>, n: nat, room: nat) -> Option<nat>
    decreases b.len(), n,
{
    if n == 0 {
        Some(0)
    } else {
        match plain_int(b) {
            Some((_, key)) if 0 < key <= b.len() => match plain_len(b.skip(key as int), room) {
                Some(value) if key + value <= b.len() => plus(
                    key + value,
                    plain_entries_len(b.skip((key + value) as int), (n - 1) as nat, room),
                ),
                _ => None,
            },
            _ => None,
        }
    }
}

/// `len` bytes more than `more`.
pub open spec fn plus(len: nat, more: Option<nat>) -> Option<nat> {
    match more {
        Some(more) => Some(len + more),
        None => None,
    }
}

/// Whether the whole of `input`, which does not start with a plain value, is one CBOR value that
/// `serde_cbor` can read.
pub uninterp spec fn is_other_value(input: Seq<u8>) -> bool;

/// The number of bytes of the CBOR value at the start of `input`, which is not a plain one, if
/// `serde_cbor` can read one there.
pub uninterp spec fn other_value_len(input: Seq<u8>) -> Option<nat>;

/// The bytes that `serde_bytes` makes of the item at the start of `input`, which is not a byte
/// string of definite length, with the number of bytes that the item takes.
pub uninterp spec fn other_bytes(input: Seq<u8>) -> Option<(Seq<u8>, nat)>;

/// Whether the whole of `input` is one CBOR value that `serde_cbor` can read.
pub open spec fn is_cbor_value(input: Seq<u8>) -> bool {
    match plain_len(input, MAX_LEVELS as nat) {
        Some(len) => len == input.len(),
        None => is_other_value(input),
    }
}

/// The number of bytes of the CBOR value at the start of `input`, if `serde_cbor` can read one.
pub open spec fn value_len(input: Seq<u8>) -> Option<nat> {
    match plain_len(input, MAX_LEVELS as nat) {
        Some(len) => Some(len),
        None => other_value_len(input),
    }
}

/// The bytes that `serde_bytes` makes of the item at the start of `input`, with the number of
/// bytes that the item takes.
pub open spec fn bytes_item(input: Seq<u8>) -> Option<(Seq<u8>, nat)> {
    if is_byte_string(input) {
        plain_bytes(input)
    } else {
        other_bytes(input)
    }
}

/// What is found at the start of some bytes.
pub enum Found<T> {
    /// An item, with the number of bytes that it takes.
    Item(T, nat),
    /// Nothing that can be read.
    Malformed,
    /// More tags than there are levels left.
    TooDeep,
}

/// What is found where `item` follows `tags` bytes of tags.
pub open spec fn found<T>(tags: nat, item: Option<(T, nat)>) -> Found<T> {
    match item {
        Some((value, len)) => Found::Item(value, tags + len),
        None => Found::Malformed,
    }
}

/// `item`, if it is an `i32`.
pub open spec fn as_i32(item: Option<(int, nat)>) -> Option<(i32, nat)> {
    match item {
        Some((n, len)) if i32::MIN <= n <= i32::MAX => Some((n as i32, len)),
        _ => None,
    }
}

/// `item`, if it is a `u8`.
pub open spec fn as_u8(item: Option<(int, nat)>) -> Option<(u8, nat)> {
    match item {
        Some((n, len)) if 0 <= n <= u8::MAX => Some((n as u8, len)),
        _ => None,
    }
}

/// The `i32` at the start of `b`, where `room` levels are left.
#[verifier::opaque]
pub open spec fn int_found(b: Seq<u8>, room: nat) -> Found<i32> {
    match tags_skipped(b, room) {
        Some((tags, _)) => found(tags, as_i32(plain_int(b.skip(tags as int)))),
        None => Found::TooDeep,
    }
}

/// The `u8` at the start of `b`, where `room` levels are left.
#[verifier::opaque]
pub open spec fn byte_found(b: Seq<u8>, room: nat) -> Found<u8> {
    match tags_skipped(b, room) {
        Some((tags, _)) => found(tags, as_u8(plain_int(b.skip(tags as int)))),
        None => Found::TooDeep,
    }
}

/// `levels` tags, which put what follows them that many levels deep and mean nothing else.
pub open spec fn nest(levels: nat) -> Seq<u8> {
    Seq::new(levels, |i: int| 0xc0u8)
}

/// `item`, which was found behind `levels` tags of one byte, on its own.
pub open spec fn unnest<T>(levels: nat, item: Option<(T, nat)>) -> Option<(T, nat)> {
    match item {
        Some((value, len)) if levels < len => Some((value, (len - levels) as nat)),
        _ => None,
    }
}

/// The levels that are used up where `room` are left.
pub open spec fn used(room: nat) -> nat {
    (MAX_LEVELS - room) as nat
}

/// What `serde_bytes` makes of the item at the start of `b`, where `room` levels are left.
pub open spec fn bytes_at(b: Seq<u8>, room: nat) -> Option<(Seq<u8>, nat)> {
    if is_byte_string(b) {
        plain_bytes(b)
    } else {
        unnest(used(room), bytes_item(nest(used(room)) + b))
    }
}

/// `item`, as one that might have been null.
pub open spec fn non_null<T>(item: Option<(T, nat)>) -> Option<(Option<T>, nat)> {
    match item {
        Some((value, len)) => Some((Some(value), len)),
        None => None,
    }
}

/// The bytes, or the null, at the start of `b`, where `room` levels are left.
#[verifier::opaque]
pub open spec fn bytes_found(b: Seq<u8>, room: nat) -> Found<Option<Seq<u8>>> {
    if is_null(b) {
        Found::Item(None, 1)
    } else {
        match tags_skipped(b, room) {
            Some((tags, left)) => found(tags, non_null(bytes_at(b.skip(tags as int), left))),
            None => Found::TooDeep,
        }
    }
}

/// The value of `len` bytes, of which nothing else is known.
pub open spec fn unread(len: Option<nat>) -> Option<((), nat)> {
    match len {
        Some(len) => Some(((), len)),
        None => None,
    }
}

/// The presence of a value at the start of `b`, where `room` levels are left and a null is an
/// absent value.
#[verifier::opaque]
pub open spec fn any_found(b: Seq<u8>, room: nat) -> Found<Option<()>> {
    if is_null(b) {
        Found::Item(None, 1)
    } else {
        found(0, non_null(unnest(used(room), unread(value_len(nest(used(room)) + b)))))
    }
}

/// Calls `serde_cbor::from_slice` for a `serde_cbor::Value`. Where a plain value stands at the
/// start of `input`, it succeeds if nothing follows; a name stands for whether it succeeds on any
/// other input. Which error it gives is left unsaid.
#[verifier::external_body]
pub(crate) fn check_value(input: &[u8]) -> (r: Result<(), serde_cbor::Error>)
    ensures
        plain_len(input@, MAX_LEVELS as nat) is None ==> (r is Ok <==> is_other_value(input@)),
        r is Ok <==> is_cbor_value(input@),
{
    serde_cbor::from_slice::<serde_cbor::Value>(input).map(|_| ())
}

/// Deserializes a `serde_cbor::Value` with a `serde_cbor::Deserializer` over `input`, and asks it
/// for its offset. It takes a plain value; a name stands for what it makes of any other. A value
/// takes more bytes than the tags before it, and no more than there are. The crate's feature `tags`
/// is off, so that it skips tags. Which error comes is left unsaid.
#[verifier::external_body]
pub(crate) fn take_value(input: &[u8]) -> (r: Result<usize, serde_cbor::Error>)
    ensures
        plain_len(input@, MAX_LEVELS as nat) is None ==> (r is Ok <==> other_value_len(
            input@,
        ) is Some),
        r is Ok <==> value_len(input@) is Some,
        r is Ok ==> value_len(input@) == Some(r->Ok_0 as nat),
        r is Ok ==> tags_skipped(input@, MAX_LEVELS as nat) is Some && tags_skipped(
            input@,
            MAX_LEVELS as nat,
        )->Some_0.0 < r->Ok_0 <= input@.len(),
{
    let mut de = serde_cbor::Deserializer::from_slice(input);
    serde_cbor::Value::deserialize(&mut de)?;
    Ok(de.byte_offset())
}

/// As `take_value`, for an `i32`. It takes an unsigned or negative CBOR integer in the range of
/// `i32`, whatever the width of its argument, behind as many tags as there are levels, and refuses
/// any other item.
#[verifier::external_body]
pub(crate) fn take_int(input: &[u8]) -> (r: Result<(i32, usize), serde_cbor::Error>)
    ensures
        r is Ok <==> int_found(input@, MAX_LEVELS as nat) is Item,
        r is Ok ==> int_found(input@, MAX_LEVELS as nat) == Found::Item(
            r->Ok_0.0,
            r->Ok_0.1 as nat,
        ),
        r is Ok ==> 0 < r->Ok_0.1 <= input@.len(),
{
    let mut de = serde_cbor::Deserializer::from_slice(input);
    let k = i32::deserialize(&mut de)?;
    Ok((k, de.byte_offset()))
}

/// As `take_int`, for a `u8`.
#[verifier::external_body]
pub(crate) fn take_byte(input: &[u8]) -> (r: Result<(u8, usize), serde_cbor::Error>)
    ensures
        r is Ok <==> byte_found(input@, MAX_LEVELS as nat) is Item,
        r is Ok ==> byte_found(input@, MAX_LEVELS as nat) == Found::Item(
            r->Ok_0.0,
            r->Ok_0.1 as nat,
        ),
        r is Ok ==> 0 < r->Ok_0.1 <= input@.len(),
{
    let mut de = serde_cbor::Deserializer::from_slice(input);
    let b = u8::deserialize(&mut de)?;
    Ok((b, de.byte_offset()))
}

/// As `take_value`, for a `serde_bytes::ByteBuf`. It takes a byte string of definite length for its
/// bytes, which must all be there; a name stands for what it makes of any other item.
#[verifier::external_body]
pub(crate) fn take_bytes(input: &[u8]) -> (r: Result<(Vec<u8>, usize), serde_cbor::Error>)
    ensures
        !is_byte_string(input@) ==> (r is Ok <==> other_bytes(input@) is Some),
        r is Ok <==> bytes_item(input@) is Some,
        r is Ok ==> bytes_item(input@) == Some((r->Ok_0.0@, r->Ok_0.1 as nat)),
        r is Ok ==> tags_skipped(input@, MAX_LEVELS as nat) is Some && tags_skipped(
            input@,
            MAX_LEVELS as nat,
        )->Some_0.0 < r->Ok_0.1 <= input@.len(),
{
    let mut de = serde_cbor::Deserializer::from_slice(input);
    let b = serde_bytes::ByteBuf::deserialize(&mut de)?;
    Ok((b.into_vec(), de.byte_offset()))
}

/// The bytes of an optional vector.
pub open spec fn opt_view(v: Option<Vec<u8>>) -> Option<Seq<u8>> {
    match v {
        Some(v) => Some(v@),
        None => None,
    }
}

/// The head of a CBOR map: how many entries follow, and how many bytes the head takes. A map of
/// indefinite length has no count.
pub struct MapHead {
    /// The number of entries that follow, where the head gives it.
    pub count: Option<u64>,
    /// The number of bytes of the head.
    pub len: usize,
}

/// The head of the map at the start of `b`: the number of entries, where it is given, and the
/// length of the head.
pub open spec fn map_head(b: Seq<u8>) -> Option<(Option<nat>, nat)> {
    match item_head(b) {
        Some((5, count, len)) => Some((Some(count), len)),
        _ => if b.len() > 0 && b[0] == 0xbf {
            Some((None, 1))
        } else {
            None
        },
    }
}

/// The number of bytes of an argument, as `argument_width` gives it.
fn read_argument_width(info: u8) -> (r: usize)
    ensures
        r == argument_width(info),
{
    if info == 24 {
        1
    } else if info == 25 {
        2
    } else if info == 26 {
        4
    } else if info == 27 {
        8
    } else {
        0
    }
}

/// `width` bytes spell a number below 256 to the power of `width`.
proof fn lemma_be_nat_bound(s: Seq<u8>)
    ensures
        be_nat(s) < vstd::arithmetic::power::pow(256, s.len()),
    decreases s.len(),
{
    reveal(vstd::arithmetic::power::pow);
    if s.len() > 0 {
        lemma_be_nat_bound(s.drop_last());
    }
}

/// The number that up to eight bytes spell.
fn read_be(b: &[u8]) -> (r: u64)
    requires
        b@.len() <= 8,
    ensures
        r == be_nat(b@),
{
    let mut acc: u64 = 0;
    let mut i: usize = 0;
    assert(b@.take(0) =~= Seq::<u8>::empty());
    while i < b.len()
        invariant
            i <= b@.len() <= 8,
            acc == be_nat(b@.take(i as int)),
        decreases b@.len() - i,
    {
        proof {
            let next = b@.take(i + 1);
            assert(next.drop_last() =~= b@.take(i as int));
            lemma_be_nat_bound(next);
            reveal_with_fuel(vstd::arithmetic::power::pow, 9);
            assert(vstd::arithmetic::power::pow(256, next.len()) <= 0x1_0000_0000_0000_0000) by {
                assert(next.len() == 1 || next.len() == 2 || next.len() == 3 || next.len() == 4
                    || next.len() == 5 || next.len() == 6 || next.len() == 7 || next.len() == 8);
            }
        }
        acc = acc * 256 + b[i] as u64;
        i = i + 1;
    }
    assert(b@.take(i as int) =~= b@);
    acc
}

/// Reads the head at the start of `input`.
fn read_item_head(input: &[u8]) -> (r: Option<(u8, u64, usize)>)
    ensures
        match item_head(input@) {
            Some((major, argument, len)) => {
                &&& r is Some
                &&& r->Some_0.0 == major
                &&& r->Some_0.1 == argument
                &&& r->Some_0.2 == len
                &&& 0 < len <= input@.len()
            },
            None => r is None,
        },
{
    if input.len() == 0 {
        return None;
    }
    let info: u8 = input[0] % 32;
    let width: usize = read_argument_width(info);
    if info > 27 || input.len() <= width {
        return None;
    }
    let argument: u64 = if width == 0 {
        info as u64
    } else {
        read_be(slice_subrange(input, 1, 1 + width))
    };
    Some((input[0] / 32, argument, 1 + width))
}

/// Reads the head of the map at the start of `input`.
pub fn read_map_head(input: &[u8]) -> (r: Option<MapHead>)
    ensures
        match map_head(input@) {
            Some((count, len)) => {
                &&& r is Some
                &&& r->Some_0.len == len
                &&& len <= input@.len()
                &&& r->Some_0.count is Some <==> count is Some
                &&& count is Some ==> r->Some_0.count->Some_0 == count->Some_0
            },
            None => r is None,
        },
{
    match read_item_head(input) {
        Some((5, count, len)) => Some(MapHead { count: Some(count), len }),
        _ => {
            if input.len() > 0 && input[0] == 0xbf {
                Some(MapHead { count: None, len: 1 })
            } else {
                None
            }
        },
    }
}

/// Reads the semantic tags at the start of `input`: how many bytes they take, and how many levels
/// are left behind them out of `room`.
pub fn read_tags(input: &[u8], room: u8) -> (r: Option<(usize, u8)>)
    ensures
        match tags_skipped(input@, room as nat) {
            Some((len, left)) => {
                &&& r is Some
                &&& r->Some_0.0 == len
                &&& r->Some_0.1 == left
                &&& len <= input@.len()
                &&& left <= room
                &&& !(item_head(input@.skip(len as int)) matches Some((6, _, _)))
            },
            None => r is None,
        },
{
    let mut pos: usize = 0;
    let mut left: u8 = room;
    assert(input@.skip(0) =~= input@);
    loop
        invariant
            pos <= input@.len(),
            left <= room,
            tags_skipped(input@, room as nat) == (match tags_skipped(
                input@.skip(pos as int),
                left as nat,
            ) {
                Some((len, behind)) => Some((pos as nat + len, behind)),
                None => None,
            }),
        decreases input@.len() - pos,
    {
        let rest = slice_subrange(input, pos, input.len());
        assert(rest@ =~= input@.skip(pos as int));
        match read_item_head(rest) {
            Some((6, _, len)) => {
                if left == 0 {
                    return None;
                }
                assert(rest@.skip(len as int) =~= input@.skip(pos + len));
                pos = pos + len;
                left = left - 1;
            },
            _ => return Some((pos, left)),
        }
    }
}

/// `levels` tags before some bytes are skipped one by one.
pub proof fn lemma_nest(levels: nat, b: Seq<u8>, room: nat)
    requires
        levels <= room,
    ensures
        tags_skipped(nest(levels) + b, room) == (match tags_skipped(b, (room - levels) as nat) {
            Some((len, left)) => Some((levels + len, left)),
            None => None,
        }),
    decreases levels,
{
    let all = nest(levels) + b;
    if levels == 0 {
        assert(all =~= b);
    } else {
        let less = (levels - 1) as nat;
        assert(all[0] == 0xc0);
        assert(item_head(all) == Some((6u8, 0nat, 1nat)));
        assert(all.skip(1) =~= nest(less) + b);
        lemma_nest(less, b, (room - 1) as nat);
    }
}

/// `input`, put `levels` levels deep.
fn nested(levels: usize, input: &[u8]) -> (r: Vec<u8>)
    ensures
        r@ == nest(levels as nat) + input@,
{
    let mut r: Vec<u8> = Vec::new();
    r.resize(levels, 0xc0u8);
    r.extend_from_slice(input);
    assert(r@ =~= nest(levels as nat) + input@);
    r
}

/// `r` is what was found.
pub open spec fn finds<T>(r: Result<(T, usize), DecodeError>, found: Found<T>) -> bool {
    match found {
        Found::Item(value, len) => r is Ok && r->Ok_0.0 == value && r->Ok_0.1 == len,
        Found::Malformed => r is Err && r->Err_0 is Cbor,
        Found::TooDeep => r is Err && r->Err_0 is TooDeep,
    }
}

/// Reads the `i32` at the start of `input`, where `room` levels are left.
pub fn find_int(input: &[u8], room: u8) -> (r: Result<(i32, usize), DecodeError>)
    ensures
        finds(r, int_found(input@, room as nat)),
        match int_found(input@, room as nat) {
            Found::Item(value, len) => r is Ok && r->Ok_0.0 == value && r->Ok_0.1 == len,
            Found::Malformed => r is Err && r->Err_0 is Cbor,
            Found::TooDeep => r is Err && r->Err_0 is TooDeep,
        },
        r is Ok ==> 0 < r->Ok_0.1 <= input@.len(),
{
    reveal(int_found);
    let (tags, _): (usize, u8) = match read_tags(input, room) {
        Some(skipped) => skipped,
        None => return Err(DecodeError::TooDeep),
    };
    let rest = slice_subrange(input, tags, input.len());
    assert(rest@ =~= input@.skip(tags as int));
    assert(rest@.skip(0) =~= rest@);
    match take_int(rest) {
        Ok((n, len)) => Ok((n, tags + len)),
        Err(e) => Err(DecodeError::Cbor(e)),
    }
}

/// Reads the `u8` at the start of `input`, where `room` levels are left.
pub fn find_byte(input: &[u8], room: u8) -> (r: Result<(u8, usize), DecodeError>)
    ensures
        finds(r, byte_found(input@, room as nat)),
        match byte_found(input@, room as nat) {
            Found::Item(value, len) => r is Ok && r->Ok_0.0 == value && r->Ok_0.1 == len,
            Found::Malformed => r is Err && r->Err_0 is Cbor,
            Found::TooDeep => r is Err && r->Err_0 is TooDeep,
        },
        r is Ok ==> 0 < r->Ok_0.1 <= input@.len(),
{
    reveal(byte_found);
    let (tags, _): (usize, u8) = match read_tags(input, room) {
        Some(skipped) => skipped,
        None => return Err(DecodeError::TooDeep),
    };
    let rest = slice_subrange(input, tags, input.len());
    assert(rest@ =~= input@.skip(tags as int));
    assert(rest@.skip(0) =~= rest@);
    match take_byte(rest) {
        Ok((n, len)) => Ok((n, tags + len)),
        Err(e) => Err(DecodeError::Cbor(e)),
    }
}

/// Reads the bytes, or the null, at the start of `input`, where `room` levels are left.
pub fn find_bytes(input: &[u8], room: u8) -> (r: Result<(Option<Vec<u8>>, usize), DecodeError>)
    requires
        room <= MAX_LEVELS,
    ensures
        match bytes_found(input@, room as nat) {
            Found::Item(data, len) => r is Ok && opt_view(r->Ok_0.0) == data && r->Ok_0.1 == len,
            Found::Malformed => r is Err && r->Err_0 is Cbor,
            Found::TooDeep => r is Err && r->Err_0 is TooDeep,
        },
        r is Ok ==> 0 < r->Ok_0.1 <= input@.len(),
{
    reveal(bytes_found);
    if input.len() > 0 && input[0] == 0xf6 {
        return Ok((None, 1));
    }
    let (tags, left): (usize, u8) = match read_tags(input, room) {
        Some(skipped) => skipped,
        None => return Err(DecodeError::TooDeep),
    };
    let rest = slice_subrange(input, tags, input.len());
    assert(rest@ =~= input@.skip(tags as int));
    let levels: u8 = MAX_LEVELS - left;
    match read_item_head(rest) {
        Some((2, _, _)) => match take_bytes(rest) {
            Ok((data, len)) => Ok((Some(data), tags + len)),
            Err(e) => Err(DecodeError::Cbor(e)),
        },
        _ => {
            proof {
                lemma_nest(levels as nat, rest@, MAX_LEVELS as nat);
            }
            match take_bytes(nested(levels as usize, rest).as_slice()) {
                Ok((data, len)) => Ok((Some(data), tags + (len - levels as usize))),
                Err(e) => Err(DecodeError::Cbor(e)),
            }
        },
    }
}

/// Reads past the value, or the null, at the start of `input`, where `room` levels are left, and
/// says whether it is a value.
pub fn find_any(input: &[u8], room: u8) -> (r: Result<(Option<()>, usize), DecodeError>)
    requires
        room <= MAX_LEVELS,
    ensures
        finds(r, any_found(input@, room as nat)),
        match any_found(input@, room as nat) {
            Found::Item(value, len) => r is Ok && r->Ok_0.0 == value && r->Ok_0.1 == len,
            Found::Malformed => r is Err && r->Err_0 is Cbor,
            Found::TooDeep => r is Err && r->Err_0 is TooDeep,
        },
        r is Ok ==> 0 < r->Ok_0.1 <= input@.len(),
{
    reveal(any_found);
    if input.len() > 0 && input[0] == 0xf6 {
        return Ok((None, 1));
    }
    let levels: u8 = MAX_LEVELS - room;
    proof {
        lemma_nest(levels as nat, input@, MAX_LEVELS as nat);
    }
    match take_value(nested(levels as usize, input).as_slice()) {
        Ok(len) => Ok((Some(()), len - levels as usize)),
        Err(e) => Err(DecodeError::Cbor(e)),
    }
}

} // verus!
