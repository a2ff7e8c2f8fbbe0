//! The request of a PIN command, and how it is written: a CBOR map with the keys one to six.

use vstd::prelude::*;

use crate::cbor::{self, encode_bytes, encode_uint};
use crate::crypto::COSEKey;
use crate::pin::PinAuth;

verus! {

/// The subcommands of `authenticatorClientPIN` that a platform uses.
#[derive(Debug, Copy, Clone, PartialEq, Eq, Structural)]
pub enum PINSubcommand {
    GetRetries,
    GetKeyAgreement,
    SetPIN,
    ChangePIN,
    GetPINToken,
}

impl PINSubcommand {
    /// The number by which the authenticator knows the subcommand.
    pub open spec fn number(self) -> u8 {
        match self {
            PINSubcommand::GetRetries => 0x01,
            PINSubcommand::GetKeyAgreement => 0x02,
            PINSubcommand::SetPIN => 0x03,
            PINSubcommand::ChangePIN => 0x04,
            PINSubcommand::GetPINToken => 0x05,
        }
    }

    /// The number by which the authenticator knows the subcommand.
    pub fn code(self) -> (r: u8)
        ensures
            r == self.number(),
            self == PINSubcommand::GetRetries ==> r == 0x01,
            self == PINSubcommand::GetKeyAgreement ==> r == 0x02,
            self == PINSubcommand::SetPIN ==> r == 0x03,
            self == PINSubcommand::ChangePIN ==> r == 0x04,
            self == PINSubcommand::GetPINToken ==> r == 0x05,
    {
        match self {
            PINSubcommand::GetRetries => 0x01,
            PINSubcommand::GetKeyAgreement => 0x02,
            PINSubcommand::SetPIN => 0x03,
            PINSubcommand::ChangePIN => 0x04,
            PINSubcommand::GetPINToken => 0x05,
        }
    }
}

/// The contents of a request: the subcommand, and the fields that it comes with.
#[verifier::ext_equal]
pub struct RequestModel {
    pub pin_protocol: Option<u8>,
    pub subcommand: PINSubcommand,
    pub key_agreement: Option<Seq<u8>>,
    pub pin_auth: Option<Seq<u8>>,
    pub new_pin_enc: Option<Seq<u8>>,
    pub pin_hash_enc: Option<Seq<u8>>,
}

/// The request for a subcommand with no further field.
pub open spec fn bare_request(subcommand: PINSubcommand) -> RequestModel {
    RequestModel {
        pin_protocol: None,
        subcommand,
        key_agreement: None,
        pin_auth: None,
        new_pin_enc: None,
        pin_hash_enc: None,
    }
}

/// An entry that is there only if its item is.
pub open spec fn opt_entry(key: u8, item: Option<Seq<u8>>) -> Seq<(u8, Seq<u8>)> {
    match item {
        Some(item) => seq![(key, item)],
        None => Seq::empty(),
    }
}

/// An optional byte string, as an optional CBOR item.
pub open spec fn opt_bytes_item(data: Option<Seq<u8>>) -> Option<Seq<u8>> {
    match data {
        Some(data) => Some(cbor::cbor_bytes(data)),
        None => None,
    }
}

/// An optional unsigned integer, as an optional CBOR item.
pub open spec fn opt_uint_item(n: Option<u8>) -> Option<Seq<u8>> {
    match n {
        Some(n) => Some(cbor::cbor_uint(n)),
        None => None,
    }
}

/// The entries one behind the other, each with its key before its item.
pub open spec fn flat(entries: Seq<(u8, Seq<u8>)>) -> Seq<u8>
    decreases entries.len(),
{
    if entries.len() == 0 {
        Seq::empty()
    } else {
        flat(entries.drop_last()) + cbor::cbor_uint(entries.last().0) + entries.last().1
    }
}

impl RequestModel {
    /// The entries of the request's map: the keys, each with its item in CBOR.
    pub open spec fn entries(self) -> Seq<(u8, Seq<u8>)> {
        opt_entry(1, opt_uint_item(self.pin_protocol)) + opt_entry(
            2,
            Some(cbor::cbor_uint(self.subcommand.number())),
        ) + opt_entry(3, self.key_agreement) + opt_entry(4, opt_bytes_item(self.pin_auth))
            + opt_entry(5, opt_bytes_item(self.new_pin_enc)) + opt_entry(
            6,
            opt_bytes_item(self.pin_hash_enc),
        )
    }

    /// The bytes of the request: the head of a map with that many entries, then the entries.
    pub open spec fn encoding(self) -> Seq<u8> {
        cbor::cbor_head(5, self.entries().len()) + flat(self.entries())
    }
}

/// The encoding of an optional key.
pub open spec fn opt_key_view(key: Option<COSEKey>) -> Option<Seq<u8>> {
    match key {
        Some(key) => Some(key@),
        None => None,
    }
}

/// The bytes of an optional authentication code.
pub open spec fn opt_auth_view(auth: Option<PinAuth>) -> Option<Seq<u8>> {
    match auth {
        Some(auth) => Some(auth@),
        None => None,
    }
}

/// A request of `authenticatorClientPIN`.
#[derive(Debug)]
pub struct ClientPIN {
    pub pin_protocol: Option<u8>,
    pub subcommand: PINSubcommand,
    pub key_agreement: Option<COSEKey>,
    pub pin_auth: Option<PinAuth>,
    pub new_pin_enc: Option<Vec<u8>>,
    pub pin_hash_enc: Option<Vec<u8>>,
}

impl View for ClientPIN {
    type V = RequestModel;

    open spec fn view(&self) -> RequestModel {
        RequestModel {
            pin_protocol: self.pin_protocol,
            subcommand: self.subcommand,
            key_agreement: opt_key_view(self.key_agreement),
            pin_auth: opt_auth_view(self.pin_auth),
            new_pin_enc: cbor::opt_view(self.new_pin_enc),
            pin_hash_enc: cbor::opt_view(self.pin_hash_enc),
        }
    }
}

impl Default for ClientPIN {
    /// The request for the number of retries, with no further field.
    fn default() -> (r: ClientPIN)
        ensures
            r@ == bare_request(PINSubcommand::GetRetries),
            r.subcommand == PINSubcommand::GetRetries,
            r.pin_protocol is None && r.key_agreement is None && r.pin_auth is None,
            r.new_pin_enc is None && r.pin_hash_enc is None,
    {
        ClientPIN {
            pin_protocol: None,
            subcommand: PINSubcommand::GetRetries,
            key_agreement: None,
            pin_auth: None,
            new_pin_enc: None,
            pin_hash_enc: None,
        }
    }
}

/// The bytes of an entry that is there only if its item is.
pub open spec fn entry_bytes(key: u8, item: Option<Seq<u8>>) -> Seq<u8> {
    match item {
        Some(item) => cbor::cbor_uint(key) + item,
        None => Seq::empty(),
    }
}

/// Appending an entry appends its bytes.
pub proof fn lemma_flat_append(entries: Seq<(u8, Seq<u8>)>, key: u8, item: Option<Seq<u8>>)
    ensures
        flat(entries + opt_entry(key, item)) == flat(entries) + entry_bytes(key, item),
{
    let all = entries + opt_entry(key, item);
    match item {
        Some(item) => {
            assert(all.drop_last() =~= entries);
            assert(all.last() == (key, item));
            assert(flat(all) =~= flat(entries) + (cbor::cbor_uint(key) + item));
        },
        None => {
            assert(all =~= entries);
            assert(flat(all) =~= flat(entries) + entry_bytes(key, None));
        },
    }
}

/// The entries of a request, one behind the other, are the bytes of each possible entry.
pub proof fn lemma_request_flat(m: RequestModel)
    ensures
        flat(m.entries()) == entry_bytes(1, opt_uint_item(m.pin_protocol)) + entry_bytes(
            2,
            Some(cbor::cbor_uint(m.subcommand.number())),
        ) + entry_bytes(3, m.key_agreement) + entry_bytes(4, opt_bytes_item(m.pin_auth))
            + entry_bytes(5, opt_bytes_item(m.new_pin_enc)) + entry_bytes(
            6,
            opt_bytes_item(m.pin_hash_enc),
        ),
{
    let none = Seq::<(u8, Seq<u8>)>::empty();
    let e1 = opt_entry(1, opt_uint_item(m.pin_protocol));
    let e2 = e1 + opt_entry(2, Some(cbor::cbor_uint(m.subcommand.number())));
    let e3 = e2 + opt_entry(3, m.key_agreement);
    let e4 = e3 + opt_entry(4, opt_bytes_item(m.pin_auth));
    let e5 = e4 + opt_entry(5, opt_bytes_item(m.new_pin_enc));
    lemma_flat_append(none, 1, opt_uint_item(m.pin_protocol));
    assert(none + e1 =~= e1);
    assert(flat(none) =~= Seq::<u8>::empty());
    assert(flat(e1) =~= entry_bytes(1, opt_uint_item(m.pin_protocol)));
    lemma_flat_append(e1, 2, Some(cbor::cbor_uint(m.subcommand.number())));
    lemma_flat_append(e2, 3, m.key_agreement);
    lemma_flat_append(e3, 4, opt_bytes_item(m.pin_auth));
    lemma_flat_append(e4, 5, opt_bytes_item(m.new_pin_enc));
    lemma_flat_append(e5, 6, opt_bytes_item(m.pin_hash_enc));
}

/// Six pieces appended to `head` one by one are the six put together, behind `head`.
proof fn lemma_append_six(
    head: Seq<u8>,
    a: Seq<u8>,
    b: Seq<u8>,
    c: Seq<u8>,
    d: Seq<u8>,
    e: Seq<u8>,
    f: Seq<u8>,
)
    ensures
        head + a + b + c + d + e + f == head + (a + b + c + d + e + f),
{
    assert(head + a + b + c + d + e + f =~= head + (a + b + c + d + e + f));
}

/// Appends `key`, as a CBOR item, and then `item` to `out`.
fn append_entry(out: &mut Vec<u8>, key: u8, item: &[u8]) -> (r: Result<(), serde_cbor::Error>)
    ensures
        r is Ok,
        final(out)@ == old(out)@ + entry_bytes(key, Some(item@)),
{
    let key_item = encode_uint(key)?;
    out.extend_from_slice(key_item.as_slice());
    out.extend_from_slice(item);
    assert(out@ =~= old(out)@ + (cbor::cbor_uint(key) + item@));
    Ok(())
}

/// Appends an entry with an unsigned integer to `out`, if there is one.
fn append_uint(out: &mut Vec<u8>, key: u8, n: Option<u8>) -> (r: Result<(), serde_cbor::Error>)
    ensures
        r is Ok,
        final(out)@ == old(out)@ + entry_bytes(key, opt_uint_item(n)),
{
    match n {
        Some(n) => {
            let item = encode_uint(n)?;
            append_entry(out, key, item.as_slice())
        },
        None => {
            assert(out@ =~= old(out)@ + Seq::<u8>::empty());
            Ok(())
        },
    }
}

/// Appends an entry with a byte string to `out`, if there is one.
fn append_bytes(out: &mut Vec<u8>, key: u8, data: &Option<Vec<u8>>) -> (r: Result<
    (),
    serde_cbor::Error,
>)
    ensures
        r is Ok,
        final(out)@ == old(out)@ + entry_bytes(key, opt_bytes_item(cbor::opt_view(*data))),
{
    match data {
        Some(data) => {
            let item = encode_bytes(data.as_slice())?;
            append_entry(out, key, item.as_slice())
        },
        None => {
            assert(out@ =~= old(out)@ + Seq::<u8>::empty());
            Ok(())
        },
    }
}

/// Appends an entry with a COSE key to `out`, if there is one.
fn append_key(out: &mut Vec<u8>, key: u8, cose: &Option<COSEKey>) -> (r: Result<
    (),
    serde_cbor::Error,
>)
    ensures
        r is Ok,
        final(out)@ == old(out)@ + entry_bytes(key, opt_key_view(*cose)),
{
    match cose {
        Some(cose) => append_entry(out, key, cose.encoded()),
        None => {
            assert(out@ =~= old(out)@ + Seq::<u8>::empty());
            Ok(())
        },
    }
}

/// Appends an entry with an authentication code to `out`, if there is one.
fn append_auth(out: &mut Vec<u8>, key: u8, auth: &Option<PinAuth>) -> (r: Result<
    (),
    serde_cbor::Error,
>)
    ensures
        r is Ok,
        final(out)@ == old(out)@ + entry_bytes(key, opt_bytes_item(opt_auth_view(*auth))),
{
    match auth {
        Some(auth) => {
            let item = auth.serialize()?;
            append_entry(out, key, item.as_slice())
        },
        None => {
            assert(out@ =~= old(out)@ + Seq::<u8>::empty());
            Ok(())
        },
    }
}

impl ClientPIN {
    /// The number of entries of the request's map.
    fn map_len(&self) -> (r: u8)
        ensures
            r == self@.entries().len(),
            r <= 6,
    {
        let mut map_len: u8 = 1;
        if self.pin_protocol.is_some() {
            map_len += 1;
        }
        if self.key_agreement.is_some() {
            map_len += 1;
        }
        if self.pin_auth.is_some() {
            map_len += 1;
        }
        if self.new_pin_enc.is_some() {
            map_len += 1;
        }
        if self.pin_hash_enc.is_some() {
            map_len += 1;
        }
        map_len
    }

    /// Writes the request: a CBOR map that announces the number of its entries, and holds each
    /// field that is there under its key, in the order of the keys.
    pub fn serialize(&self) -> (r: Result<Vec<u8>, serde_cbor::Error>)
        ensures
            r is Ok,
            r->Ok_0@ == self@.encoding(),
    {
        let mut out: Vec<u8> = Vec::new();
        let map_len: u8 = self.map_len();
        out.push(0xa0 + map_len);
        let ghost head = cbor::cbor_head(5, self@.entries().len());
        let ghost e1 = entry_bytes(1, opt_uint_item(self@.pin_protocol));
        let ghost e2 = entry_bytes(2, Some(cbor::cbor_uint(self@.subcommand.number())));
        let ghost e3 = entry_bytes(3, self@.key_agreement);
        let ghost e4 = entry_bytes(4, opt_bytes_item(self@.pin_auth));
        let ghost e5 = entry_bytes(5, opt_bytes_item(self@.new_pin_enc));
        let ghost e6 = entry_bytes(6, opt_bytes_item(self@.pin_hash_enc));
        assert(out@ =~= head);
        append_uint(&mut out, 1, self.pin_protocol)?;
        append_uint(&mut out, 2, Some(self.subcommand.code()))?;
        append_key(&mut out, 3, &self.key_agreement)?;
        append_auth(&mut out, 4, &self.pin_auth)?;
        append_bytes(&mut out, 5, &self.new_pin_enc)?;
        append_bytes(&mut out, 6, &self.pin_hash_enc)?;
        proof {
            lemma_request_flat(self@);
            lemma_append_six(head, e1, e2, e3, e4, e5, e6);
        }
        Ok(out)
    }
}

} // verus!
