//! The remote console: its packets, and the server's settings for it.

use vstd::prelude::*;
use vstd::utf8::{encode_utf8, encode_utf8_decode_utf8, encode_utf8_valid_utf8};

use crate::collections::{first_where, lemma_first_where, lemma_is_absent, lemma_is_first};
use crate::failure::{failed, Failure};
use crate::numbers::{decimal, decimal_text, signed_decimal, signed_text};
use crate::text::{
    cut_first, glue, glue3, is_white, join, joined, lemma_cut_first, lines, lines_of, opt_text,
    same_opt_text, split_once, texts, trim, trim_start, trimmed, trimmed_end, trimmed_start,
};
use crate::utf8::{readable, readable_text};

verus! {

/// The key of a line of a properties file, if it sets one.
pub open spec fn key_of(line: Seq<char>) -> Option<Seq<char>> {
    let text = trimmed_start(line);
    if text.len() == 0 || text[0] == '#' || text[0] == '!' {
        None
    } else {
        match cut_first(text, '=') {
            Some((key, _)) => Some(trimmed(key)),
            None => None,
        }
    }
}

/// The key of a line of a properties file.
pub fn property_key(line: &str) -> (r: Option<String>)
    ensures
        opt_text(r) == key_of(line@),
{
    let text = trim_start(line);
    if text.unicode_len() == 0 {
        return None;
    }
    let first = text.get_char(0);
    if first == '#' || first == '!' {
        return None;
    }
    match split_once(text, '=') {
        Some((key, _)) => Some(trim(key).to_owned()),
        None => None,
    }
}

/// A line that sets a property.
pub open spec fn property_line(key: Seq<char>, value: Seq<char>) -> Seq<char> {
    key + "="@ + value
}

/// The position of the first line that sets the key.
pub open spec fn key_position(list: Seq<Seq<char>>, key: Seq<char>) -> Option<int> {
    first_where(list, |line: Seq<char>| key_of(line) == Some(key))
}

/// The lines with a property set, in place of the first line that set it or
/// behind the others.
pub open spec fn with_property(list: Seq<Seq<char>>, key: Seq<char>, value: Seq<char>) -> Seq<
    Seq<char>,
> {
    match key_position(list, key) {
        Some(i) => list.update(i, property_line(key, value)),
        None => list.push(property_line(key, value)),
    }
}

/// The lines with the first `upto` properties set.
pub open spec fn with_properties(
    list: Seq<Seq<char>>,
    entries: Seq<(Seq<char>, Seq<char>)>,
    upto: int,
) -> Seq<Seq<char>>
    decreases upto,
{
    if upto <= 0 {
        list
    } else {
        with_property(
            with_properties(list, entries, upto - 1),
            entries[upto - 1].0,
            entries[upto - 1].1,
        )
    }
}

/// The file with properties set.
pub open spec fn updated_file(raw: Seq<char>, entries: Seq<(Seq<char>, Seq<char>)>) -> Seq<char> {
    joined(with_properties(lines_of(raw), entries, entries.len() as int), "\n"@).push('\n')
}

fn set_property(list: &mut Vec<String>, key: &str, value: &str)
    ensures
        texts(final(list)@) == with_property(texts(old(list)@), key@, value@),
{
    let ghost all = texts(list@);
    let ghost cond = |line: Seq<char>| key_of(line) == Some(key@);
    let line = glue3(key, "=", value);
    let mut i: usize = 0;
    while i < list.len()
        invariant
            i <= list@.len(),
            all == texts(list@),
            all == texts(old(list)@),
            line@ == property_line(key@, value@),
            cond == (|line: Seq<char>| key_of(line) == Some(key@)),
            forall|k: int| 0 <= k < i ==> !cond(#[trigger] all[k]),
        decreases list@.len() - i,
    {
        assert(all[i as int] == list@[i as int]@);
        let found = property_key(list[i].as_str());
        if same_opt_text(&found, key) {
            proof {
                lemma_is_first(all, cond, i as int);
            }
            list.set(i, line);
            assert(texts(list@) =~= all.update(i as int, property_line(key@, value@)));
            return;
        }
        i = i + 1;
    }
    proof {
        lemma_is_absent(all, cond);
    }
    list.push(line);
    assert(texts(list@) =~= all.push(property_line(key@, value@)));
}

/// Sets properties in the text of a properties file.
pub fn upsert_properties(raw: &str, entries: &Vec<(String, String)>) -> (r: String)
    ensures
        r@ == updated_file(raw@, crate::collections::pair_texts(entries@)),
{
    let ghost all = crate::collections::pair_texts(entries@);
    let mut list = lines(raw);
    let mut i: usize = 0;
    while i < entries.len()
        invariant
            i <= entries@.len(),
            all == crate::collections::pair_texts(entries@),
            texts(list@) == with_properties(lines_of(raw@), all, i as int),
        decreases entries@.len() - i,
    {
        assert(all[i as int] == (entries@[i as int].0@, entries@[i as int].1@));
        set_property(&mut list, entries[i].0.as_str(), entries[i].1.as_str());
        i = i + 1;
    }
    let mut out = join(&list, "\n");
    out.push('\n');
    out
}

/// The properties that switch the remote console on.
pub open spec fn rcon_properties(port: u16, password: Seq<char>) -> Seq<(Seq<char>, Seq<char>)> {
    seq![
        ("enable-rcon"@, "true"@),
        ("rcon.port"@, decimal(port as nat)),
        ("rcon.password"@, password),
    ]
}

/// Switches the remote console on in the text of a properties file.
pub fn configure_server_properties(raw: &str, rcon_port: u16, password: &str) -> (r: String)
    ensures
        r@ == updated_file(raw@, rcon_properties(rcon_port, password@)),
{
    let mut entries: Vec<(String, String)> = Vec::new();
    entries.push(("enable-rcon".to_owned(), "true".to_owned()));
    entries.push(("rcon.port".to_owned(), decimal_text(rcon_port as u64)));
    entries.push(("rcon.password".to_owned(), password.to_owned()));
    assert(crate::collections::pair_texts(entries@) =~= rcon_properties(rcon_port, password@));
    upsert_properties(raw, &entries)
}

/// Lines that set none of the given properties stay where they are.
pub proof fn unrelated_lines_stay(
    list: Seq<Seq<char>>,
    entries: Seq<(Seq<char>, Seq<char>)>,
    upto: int,
    at: int,
)
    requires
        0 <= upto <= entries.len(),
        0 <= at < list.len(),
        forall|k: int| 0 <= k < upto ==> key_of(list[at]) != Some((#[trigger] entries[k]).0),
    ensures
        with_properties(list, entries, upto).len() >= list.len(),
        with_properties(list, entries, upto)[at] == list[at],
    decreases upto,
{
    if upto > 0 {
        unrelated_lines_stay(list, entries, upto - 1, at);
        let before = with_properties(list, entries, upto - 1);
        let key = entries[upto - 1].0;
        lemma_first_where(before, |line: Seq<char>| key_of(line) == Some(key));
        if key_position(before, key) == Some(at) {
            assert(key_of(before[at]) == Some(key));
            assert(key_of(list[at]) != Some(entries[upto - 1].0));
        }
    }
}

/// Whether the text can be the key of a property as it stands.
pub open spec fn is_plain_key(key: Seq<char>) -> bool {
    key.len() > 0 && key[0] != '#' && key[0] != '!' && !key.contains('=') && !is_white(key[0])
        && !is_white(key.last())
}

/// A line that sets a property has that property's key.
pub proof fn lemma_property_line(key: Seq<char>, value: Seq<char>)
    requires
        is_plain_key(key),
    ensures
        key_of(property_line(key, value)) == Some(key),
{
    reveal_strlit("=");
    let line = property_line(key, value);
    assert(line[0] == key[0]);
    assert(trimmed_start(line) == line);
    let at = key.len() as int;
    assert(line[at] == '=');
    assert forall|k: int| 0 <= k < at implies line.take(at)[k] != '=' by {
        assert(line.take(at)[k] == key[k]);
        assert(key.contains(key[k]));
    }
    lemma_cut_first(line, '=', at);
    assert(line.take(at) =~= key);
    assert(trimmed_start(key) == key);
    assert(trimmed_end(key) == key);
}

/// Setting a property twice is like setting it once.
pub proof fn setting_a_property_twice(list: Seq<Seq<char>>, key: Seq<char>, value: Seq<char>)
    requires
        is_plain_key(key),
    ensures
        key_position(with_property(list, key, value), key) is Some,
        with_property(with_property(list, key, value), key, value) == with_property(
            list,
            key,
            value,
        ),
{
    let cond = |line: Seq<char>| key_of(line) == Some(key);
    let after = with_property(list, key, value);
    lemma_property_line(key, value);
    lemma_first_where(list, cond);
    let at = match key_position(list, key) {
        Some(i) => i,
        None => list.len() as int,
    };
    assert forall|k: int| 0 <= k < at implies !cond(#[trigger] after[k]) by {
        assert(after[k] == list[k]);
    }
    assert(cond(after[at]));
    lemma_is_first(after, cond, at);
    assert(after.update(at, property_line(key, value)) =~= after);
}

/// The first line that sets a property has the value that it was set to.
pub proof fn set_property_is_found(list: Seq<Seq<char>>, key: Seq<char>, value: Seq<char>)
    requires
        is_plain_key(key),
    ensures
        sets(with_property(list, key, value), key, value),
{
    let cond = |line: Seq<char>| key_of(line) == Some(key);
    let after = with_property(list, key, value);
    lemma_property_line(key, value);
    lemma_first_where(list, cond);
    let at = match key_position(list, key) {
        Some(i) => i,
        None => list.len() as int,
    };
    assert forall|k: int| 0 <= k < at implies !cond(#[trigger] after[k]) by {
        assert(after[k] == list[k]);
    }
    assert(cond(after[at]));
    lemma_is_first(after, cond, at);
}

/// Whether the first line that sets the key sets it to the value.
pub open spec fn sets(list: Seq<Seq<char>>, key: Seq<char>, value: Seq<char>) -> bool {
    match key_position(list, key) {
        Some(at) => list[at] == property_line(key, value),
        None => false,
    }
}

/// Setting a property leaves others as they were set.
pub proof fn other_properties_stay(
    list: Seq<Seq<char>>,
    key: Seq<char>,
    value: Seq<char>,
    other: Seq<char>,
    other_value: Seq<char>,
)
    requires
        is_plain_key(key),
        key != other,
        sets(list, other, other_value),
    ensures
        sets(with_property(list, key, value), other, other_value),
{
    let cond = |line: Seq<char>| key_of(line) == Some(other);
    let own = |line: Seq<char>| key_of(line) == Some(key);
    let after = with_property(list, key, value);
    lemma_property_line(key, value);
    lemma_first_where(list, cond);
    lemma_first_where(list, own);
    let at = key_position(list, other)->0;
    assert(own(list[at]) == false);
    assert forall|k: int| 0 <= k < at implies !cond(#[trigger] after[k]) by {
        assert(!cond(list[k]));
        assert(after[k] == list[k] || after[k] == property_line(key, value));
    }
    assert(after[at] == list[at]);
    lemma_is_first(after, cond, at);
}

/// After several properties have been set, each has the value that it was set
/// to.
pub proof fn set_properties_are_found(
    list: Seq<Seq<char>>,
    entries: Seq<(Seq<char>, Seq<char>)>,
    upto: int,
    k: int,
)
    requires
        0 <= k < upto <= entries.len(),
        forall|i: int| 0 <= i < entries.len() ==> is_plain_key((#[trigger] entries[i]).0),
        forall|i: int, j: int|
            0 <= i < j < entries.len() ==> (#[trigger] entries[i]).0 != (#[trigger] entries[j]).0,
    ensures
        sets(with_properties(list, entries, upto), entries[k].0, entries[k].1),
    decreases upto,
{
    let before = with_properties(list, entries, upto - 1);
    let last = entries[upto - 1];
    if k == upto - 1 {
        set_property_is_found(before, last.0, last.1);
    } else {
        set_properties_are_found(list, entries, upto - 1, k);
        other_properties_stay(before, last.0, last.1, entries[k].0, entries[k].1);
    }
}

/// A packet of the remote console.
#[derive(Debug)]
pub struct RconPacket {
    pub id: i32,
    pub kind: i32,
    pub body: String,
}

#[verifier::ext_equal]
pub struct PacketView {
    pub id: i32,
    pub kind: i32,
    pub body: Seq<char>,
}

impl View for RconPacket {
    type V = PacketView;

    open spec fn view(&self) -> PacketView {
        PacketView { id: self.id, kind: self.kind, body: self.body@ }
    }
}

/// The kind of a packet that carries the password.
pub const SERVERDATA_AUTH: i32 = 3;

/// The kind of the answer to the password.
pub const SERVERDATA_AUTH_RESPONSE: i32 = 2;

/// The kind of a packet that carries a command.
pub const SERVERDATA_EXECCOMMAND: i32 = 2;

/// A number as four bytes, the lowest first.
pub open spec fn le_bytes(n: u32) -> Seq<u8> {
    seq![
        (n % 0x100) as u8,
        ((n / 0x100) % 0x100) as u8,
        ((n / 0x10000) % 0x100) as u8,
        ((n / 0x1000000) % 0x100) as u8,
    ]
}

/// The number in four bytes, the lowest first.
pub open spec fn le_number(bytes: Seq<u8>, at: int) -> int {
    bytes[at] + bytes[at + 1] * 0x100 + bytes[at + 2] * 0x10000 + bytes[at + 3] * 0x1000000
}

/// The 32 bits of a signed number.
pub open spec fn bits_of(n: i32) -> u32 {
    if n >= 0 {
        n as u32
    } else {
        (n + 0x1_0000_0000) as u32
    }
}

/// The signed number with these 32 bits.
pub open spec fn signed_of(n: int) -> i32 {
    if n < 0x8000_0000 {
        n as i32
    } else {
        (n - 0x1_0000_0000) as i32
    }
}

fn push_le(out: &mut Vec<u8>, n: u32)
    ensures
        final(out)@ == old(out)@ + le_bytes(n),
{
    out.push((n % 0x100) as u8);
    out.push(((n / 0x100) % 0x100) as u8);
    out.push(((n / 0x10000) % 0x100) as u8);
    out.push(((n / 0x1000000) % 0x100) as u8);
    assert(out@ =~= old(out)@ + le_bytes(n));
}

fn to_bits(n: i32) -> (r: u32)
    ensures
        r == bits_of(n),
{
    if n >= 0 {
        n as u32
    } else {
        (n as i64 + 0x1_0000_0000) as u32
    }
}

fn read_le(bytes: &[u8], at: usize) -> (r: u32)
    requires
        at + 4 <= bytes@.len(),
    ensures
        r == le_number(bytes@, at as int),
{
    bytes[at] as u32 + bytes[at + 1] as u32 * 0x100 + bytes[at + 2] as u32 * 0x10000 + bytes[at
        + 3] as u32 * 0x1000000
}

fn to_signed(n: u32) -> (r: i32)
    ensures
        r == signed_of(n as int),
{
    if n < 0x8000_0000 {
        n as i32
    } else {
        (n as i64 - 0x1_0000_0000) as i32
    }
}

/// The low 32 bits of the length of a packet, without the length itself.
pub open spec fn packet_length(body: Seq<u8>) -> u32 {
    ((body.len() + 10) % 0x1_0000_0000) as u32
}

/// A packet as it is sent: the length of what follows, the identifier, the
/// kind, the body and two zero bytes.
pub open spec fn packet_bytes(packet: PacketView) -> Seq<u8> {
    let body = encode_utf8(packet.body);
    le_bytes(packet_length(body)) + le_bytes(bits_of(packet.id)) + le_bytes(bits_of(packet.kind))
        + body + seq![0u8, 0u8]
}

/// A packet as it is sent.
pub fn write_packet(id: i32, kind: i32, body: &str) -> (r: Vec<u8>)
    ensures
        r@ == packet_bytes(PacketView { id, kind, body: body@ }),
{
    let bytes = body.as_bytes();
    let length: u32 = ((bytes.len() as u128 + 10) % 0x1_0000_0000) as u32;
    let mut out: Vec<u8> = Vec::new();
    push_le(&mut out, length);
    push_le(&mut out, to_bits(id));
    push_le(&mut out, to_bits(kind));
    out.extend_from_slice(bytes);
    out.push(0);
    out.push(0);
    assert(out@ =~= packet_bytes(PacketView { id, kind, body: body@ }));
    out
}

/// The length that the first four bytes of a packet give, or why it cannot be
/// one.
pub open spec fn announced_length(bytes: Seq<u8>) -> Result<int, Seq<char>> {
    let length = signed_of(le_number(bytes, 0));
    if length < 10 {
        Err("invalid RCON packet length "@ + signed_decimal(length as int))
    } else {
        Ok(length as int)
    }
}

/// Reads the length of a packet from its first four bytes.
pub fn read_length(bytes: &[u8]) -> (r: Result<usize, Failure>)
    requires
        bytes@.len() >= 4,
    ensures
        match r {
            Ok(n) => announced_length(bytes@) == Ok::<int, Seq<char>>(n as int),
            Err(e) => announced_length(bytes@) == Err::<int, Seq<char>>(e@),
        },
{
    let length: i32 = to_signed(read_le(bytes, 0));
    if length < 10 {
        let digits = signed_text(length as i64);
        return Err(Failure { message: glue("invalid RCON packet length ", digits.as_str()) });
    }
    Ok(length as usize)
}

/// The packet in the bytes behind its length.
pub open spec fn packet_in(payload: Seq<u8>) -> PacketView {
    PacketView {
        id: signed_of(le_number(payload, 0)),
        kind: signed_of(le_number(payload, 4)),
        body: readable(payload.subrange(8, payload.len() - 2)),
    }
}

/// Reads a packet from the bytes behind its length.
pub fn read_packet(payload: &[u8]) -> (r: RconPacket)
    requires
        payload@.len() >= 10,
    ensures
        r@ == packet_in(payload@),
{
    let n: usize = payload.len();
    RconPacket {
        id: to_signed(read_le(payload, 0)),
        kind: to_signed(read_le(payload, 4)),
        body: readable_text(vstd::slice::slice_subrange(payload, 8, n - 2)),
    }
}

proof fn lemma_le_number(bytes: Seq<u8>, at: int, n: u32)
    requires
        0 <= at,
        at + 4 <= bytes.len(),
        bytes.subrange(at, at + 4) == le_bytes(n),
    ensures
        le_number(bytes, at) == n,
{
    let four = bytes.subrange(at, at + 4);
    let a = n % 0x100;
    let b = (n / 0x100) % 0x100;
    let c = (n / 0x10000) % 0x100;
    let d = (n / 0x1000000) % 0x100;
    assert(a + b * 0x100 + c * 0x10000 + d * 0x1000000 == n) by (bit_vector)
        requires
            a == n % 0x100,
            b == (n / 0x100) % 0x100,
            c == (n / 0x10000) % 0x100,
            d == (n / 0x1000000) % 0x100,
    ;
    assert(four[0] == bytes[at] && four[1] == bytes[at + 1] && four[2] == bytes[at + 2] && four[3]
        == bytes[at + 3]);
    assert(four[0] == a as u8 && four[1] == b as u8 && four[2] == c as u8 && four[3] == d as u8);
}

proof fn lemma_packet_parts(packet: PacketView)
    ensures
        ({
            let all = packet_bytes(packet);
            let rest = all.skip(4);
            let body = encode_utf8(packet.body);
            &&& all.len() == body.len() + 14
            &&& all.subrange(0, 4) == le_bytes(packet_length(body))
            &&& rest.subrange(0, 4) == le_bytes(bits_of(packet.id))
            &&& rest.subrange(4, 8) == le_bytes(bits_of(packet.kind))
            &&& rest.subrange(8, rest.len() - 2) == body
        }),
{
    let all = packet_bytes(packet);
    let rest = all.skip(4);
    let body = encode_utf8(packet.body);
    assert(all.subrange(0, 4) =~= le_bytes(packet_length(body)));
    assert(rest.subrange(0, 4) =~= le_bytes(bits_of(packet.id)));
    assert(rest.subrange(4, 8) =~= le_bytes(bits_of(packet.kind)));
    assert(rest.subrange(8, rest.len() - 2) =~= body);
}

/// A packet reads back as it was written: its length is announced, and what
/// follows gives the same identifier, kind and body.
pub proof fn packet_reads_back(packet: PacketView)
    requires
        encode_utf8(packet.body).len() + 10 <= i32::MAX,
    ensures
        announced_length(packet_bytes(packet)) == Ok::<int, Seq<char>>(
            packet_bytes(packet).len() - 4,
        ),
        packet_in(packet_bytes(packet).skip(4)) == packet,
{
    let body = encode_utf8(packet.body);
    let all = packet_bytes(packet);
    let rest = all.skip(4);
    lemma_packet_parts(packet);
    lemma_le_number(all, 0, packet_length(body));
    lemma_le_number(rest, 0, bits_of(packet.id));
    lemma_le_number(rest, 4, bits_of(packet.kind));
    encode_utf8_valid_utf8(packet.body);
    encode_utf8_decode_utf8(packet.body);
}

/// One connection to a remote console.
#[derive(Debug)]
pub struct RconSession {
    pub next_id: i32,
}

impl RconSession {
    /// A new connection.
    pub fn new() -> (r: Self)
        ensures
            r.next_id == 1,
    {
        RconSession { next_id: 1 }
    }

    /// The identifier of the next packet. They stop growing at the largest.
    pub fn next_packet_id(&mut self) -> (r: i32)
        ensures
            r == old(self).next_id,
            final(self).next_id == id_after(old(self).next_id),
    {
        let id: i32 = self.next_id;
        if self.next_id < i32::MAX {
            self.next_id = self.next_id + 1;
        }
        id
    }

    /// The packet that carries the password.
    pub fn login(&mut self, password: &str) -> (r: Vec<u8>)
        ensures
            r@ == packet_bytes(
                PacketView { id: old(self).next_id, kind: SERVERDATA_AUTH, body: password@ },
            ),
            final(self).next_id == id_after(old(self).next_id),
    {
        let id: i32 = self.next_packet_id();
        write_packet(id, SERVERDATA_AUTH, password)
    }

    /// The packet that carries a command, and its identifier.
    pub fn command(&mut self, command: &str) -> (r: (i32, Vec<u8>))
        ensures
            r.0 == old(self).next_id,
            r.1@ == packet_bytes(
                PacketView { id: r.0, kind: SERVERDATA_EXECCOMMAND, body: command@ },
            ),
            final(self).next_id == id_after(old(self).next_id),
    {
        let id: i32 = self.next_packet_id();
        (id, write_packet(id, SERVERDATA_EXECCOMMAND, command))
    }
}

/// Fails where the answer to the password refuses it.
pub fn check_login(response: &RconPacket) -> (r: Result<(), Failure>)
    ensures
        failed(r) == if response.id == -1 || response.kind != SERVERDATA_AUTH_RESPONSE {
            Some("RCON authentication failed"@)
        } else {
            None
        },
{
    if response.id == -1 || response.kind != SERVERDATA_AUTH_RESPONSE {
        return Err(Failure { message: "RCON authentication failed".to_owned() });
    }
    Ok(())
}

/// The answer to the command with the given identifier.
pub fn command_answer(id: i32, response: RconPacket) -> (r: Result<String, Failure>)
    ensures
        match r {
            Ok(text) => response.id == id && text@ == response@.body,
            Err(e) => response.id != id && e@ == "unexpected RCON response id "@ + signed_decimal(
                response.id as int,
            ),
        },
{
    if response.id != id {
        let digits = signed_text(response.id as i64);
        return Err(Failure { message: glue("unexpected RCON response id ", digits.as_str()) });
    }
    Ok(response.body)
}

/// Where the sending of a command stands.
#[derive(Debug, Clone, Copy, PartialEq, Eq, Structural)]
pub enum SendState {
    LoggingIn,
    /// The command was sent under this identifier, and an answer is awaited.
    Asking(i32),
    /// The command was sent, and no answer is awaited.
    Telling,
    Finished,
}

/// A command on its way to a remote console: where it stands, and whether an
/// answer to it is awaited.
#[derive(Debug)]
pub struct SendFlow {
    pub state: SendState,
    pub session: RconSession,
    pub command: String,
    pub awaits_answer: bool,
}

#[verifier::ext_equal]
pub struct SendView {
    pub state: SendState,
    pub next_id: i32,
    pub command: Seq<char>,
    pub awaits_answer: bool,
}

impl View for SendFlow {
    type V = SendView;

    open spec fn view(&self) -> SendView {
        SendView {
            state: self.state,
            next_id: self.session.next_id,
            command: self.command@,
            awaits_answer: self.awaits_answer,
        }
    }
}

/// What to do next.
#[derive(Debug)]
pub enum SendAction {
    /// Send the bytes, and hand back the packet that comes in return.
    Exchange(Vec<u8>),
    /// Send the bytes, and read nothing.
    Write(Vec<u8>),
    /// Nothing: the command was sent, and this is the answer, if one was
    /// awaited.
    Done(Option<String>),
}

#[verifier::ext_equal]
pub enum SendActionView {
    Exchange(Seq<u8>),
    Write(Seq<u8>),
    Done(Option<Seq<char>>),
}

impl View for SendAction {
    type V = SendActionView;

    open spec fn view(&self) -> SendActionView {
        match self {
            SendAction::Exchange(bytes) => SendActionView::Exchange(bytes@),
            SendAction::Write(bytes) => SendActionView::Write(bytes@),
            SendAction::Done(answer) => SendActionView::Done(opt_text(*answer)),
        }
    }
}

/// What came of it.
#[derive(Debug)]
pub enum SendEvent {
    Answered(Result<RconPacket, String>),
    Written(Result<(), String>),
}

#[verifier::ext_equal]
pub enum SendEventView {
    Answered(Result<PacketView, Seq<char>>),
    Written(Result<(), Seq<char>>),
}

impl View for SendEvent {
    type V = SendEventView;

    open spec fn view(&self) -> SendEventView {
        match self {
            SendEvent::Answered(Ok(packet)) => SendEventView::Answered(Ok(packet@)),
            SendEvent::Answered(Err(e)) => SendEventView::Answered(Err(e@)),
            SendEvent::Written(Ok(())) => SendEventView::Written(Ok(())),
            SendEvent::Written(Err(e)) => SendEventView::Written(Err(e@)),
        }
    }
}

/// Whether the event is what the state waits for.
pub open spec fn fits(state: SendState, event: SendEventView) -> bool {
    match state {
        SendState::LoggingIn | SendState::Asking(_) => event is Answered,
        SendState::Telling => event is Written,
        SendState::Finished => false,
    }
}

/// Whether an answer to the password accepts it.
pub open spec fn accepts_login(response: PacketView) -> bool {
    response.id != -1 && response.kind == SERVERDATA_AUTH_RESPONSE
}

/// The identifier behind another. They stop growing at the largest.
pub open spec fn id_after(id: i32) -> i32 {
    if id < i32::MAX {
        (id + 1) as i32
    } else {
        i32::MAX
    }
}

/// How the sending of a command begins: with the password.
pub open spec fn first_send(password: Seq<char>, command: Seq<char>, awaits_answer: bool) -> (
    SendView,
    SendActionView,
) {
    (
        SendView { state: SendState::LoggingIn, next_id: 2, command, awaits_answer },
        SendActionView::Exchange(
            packet_bytes(PacketView { id: 1, kind: SERVERDATA_AUTH, body: password }),
        ),
    )
}

/// What follows on an event.
pub open spec fn next_send(flow: SendView, event: SendEventView) -> Result<
    (SendView, SendActionView),
    Seq<char>,
> {
    match (flow.state, event) {
        (SendState::LoggingIn, SendEventView::Answered(Ok(response))) => {
            let id = flow.next_id;
            let bytes = packet_bytes(
                PacketView { id, kind: SERVERDATA_EXECCOMMAND, body: flow.command },
            );
            if !accepts_login(response) {
                Err("RCON authentication failed"@)
            } else if flow.awaits_answer {
                Ok(
                    (
                        SendView { state: SendState::Asking(id), next_id: id_after(id), ..flow },
                        SendActionView::Exchange(bytes),
                    ),
                )
            } else {
                Ok(
                    (
                        SendView { state: SendState::Telling, next_id: id_after(id), ..flow },
                        SendActionView::Write(bytes),
                    ),
                )
            }
        },
        (SendState::Asking(id), SendEventView::Answered(Ok(response))) => if response.id == id {
            Ok(
                (
                    SendView { state: SendState::Finished, ..flow },
                    SendActionView::Done(Some(response.body)),
                ),
            )
        } else {
            Err("unexpected RCON response id "@ + signed_decimal(response.id as int))
        },
        (SendState::Telling, SendEventView::Written(Ok(()))) => Ok(
            (SendView { state: SendState::Finished, ..flow }, SendActionView::Done(None)),
        ),
        (_, SendEventView::Answered(Err(e))) => Err(e),
        (_, SendEventView::Written(Err(e))) => Err(e),
        _ => Err(Seq::empty()),
    }
}

fn begin(password: &str, command: &str, awaits_answer: bool) -> (r: (SendFlow, SendAction))
    ensures
        (r.0@, r.1@) == first_send(password@, command@, awaits_answer),
{
    let mut session = RconSession::new();
    let login = session.login(password);
    let flow = SendFlow {
        state: SendState::LoggingIn,
        session,
        command: command.to_owned(),
        awaits_answer,
    };
    (flow, SendAction::Exchange(login))
}

/// Begins to send a command whose answer is awaited.
pub fn send_command(password: &str, command: &str) -> (r: (SendFlow, SendAction))
    ensures
        (r.0@, r.1@) == first_send(password@, command@, true),
{
    begin(password, command, true)
}

/// Begins to send a command without waiting for an answer.
pub fn send_command_no_response(password: &str, command: &str) -> (r: (SendFlow, SendAction))
    ensures
        (r.0@, r.1@) == first_send(password@, command@, false),
{
    begin(password, command, false)
}

impl SendFlow {
    fn logged_in(&mut self) -> (r: SendAction)
        requires
            old(self).state == SendState::LoggingIn,
        ensures
            forall|response: PacketView|
                accepts_login(response) ==> #[trigger] next_send(
                    old(self)@,
                    SendEventView::Answered(Ok(response)),
                ) == Ok::<(SendView, SendActionView), Seq<char>>((final(self)@, r@)),
    {
        let (id, bytes) = self.session.command(self.command.as_str());
        if self.awaits_answer {
            self.state = SendState::Asking(id);
            SendAction::Exchange(bytes)
        } else {
            self.state = SendState::Telling;
            SendAction::Write(bytes)
        }
    }

    /// Takes the outcome of an action and says what to do next.
    pub fn advance(&mut self, event: SendEvent) -> (r: Result<SendAction, Failure>)
        requires
            fits(old(self).state, event@),
        ensures
            match next_send(old(self)@, event@) {
                Ok((flow, action)) => r matches Ok(next) && next@ == action && final(self)@ == flow,
                Err(problem) => r matches Err(e) && e@ == problem && final(self)@ == old(self)@,
            },
    {
        match event {
            SendEvent::Answered(Ok(response)) => {
                if let SendState::Asking(id) = self.state {
                    let text = match command_answer(id, response) {
                        Ok(text) => text,
                        Err(e) => return Err(e),
                    };
                    self.state = SendState::Finished;
                    return Ok(SendAction::Done(Some(text)));
                }
                if let Err(e) = check_login(&response) {
                    return Err(e);
                }
                Ok(self.logged_in())
            },
            SendEvent::Answered(Err(message)) => Err(Failure { message }),
            SendEvent::Written(Ok(())) => {
                self.state = SendState::Finished;
                Ok(SendAction::Done(None))
            },
            SendEvent::Written(Err(message)) => Err(Failure { message }),
        }
    }
}

/// No command is sent before the password was accepted: what begins is the
/// password, and what is sent after that follows on an answer that accepts it.
pub proof fn command_follows_an_accepted_login(flow: SendView, event: SendEventView)
    requires
        next_send(flow, event) matches Ok((_, action)) && !(action is Done),
    ensures
        flow.state == SendState::LoggingIn,
        event matches SendEventView::Answered(Ok(response)) && accepts_login(response),
{
}

/// A command is sent once: once it was, nothing more is sent.
pub proof fn command_is_sent_once(flow: SendView, event: SendEventView)
    requires
        flow.state != SendState::LoggingIn,
    ensures
        next_send(flow, event) matches Ok((_, action)) ==> action is Done,
{
}

/// A packet on the wire: its length without the length itself, its number and
/// its kind, each in four bytes with the least first, then its text and two
/// zeros.
pub proof fn packets_are_laid_out(packet: PacketView)
    requires
        encode_utf8(packet.body).len() + 10 <= i32::MAX,
        packet.id >= 0,
        packet.kind >= 0,
    ensures
        ({
            let body = encode_utf8(packet.body);
            let all = packet_bytes(packet);
            let n = body.len() as int;
            &&& all.len() == n + 14
            &&& all[0] + all[1] * 256 + all[2] * 65536 + all[3] * 16777216 == n + 10
            &&& all[4] + all[5] * 256 + all[6] * 65536 + all[7] * 16777216 == packet.id
            &&& all[8] + all[9] * 256 + all[10] * 65536 + all[11] * 16777216 == packet.kind
            &&& all.subrange(12, 12 + n) == body
            &&& all[12 + n] == 0
            &&& all[13 + n] == 0
        }),
{
    let body = encode_utf8(packet.body);
    let all = packet_bytes(packet);
    let n = body.len() as int;
    lemma_packet_parts(packet);
    lemma_le_number(all, 0, packet_length(body));
    lemma_le_number(all.skip(4), 0, bits_of(packet.id));
    lemma_le_number(all.skip(4), 4, bits_of(packet.kind));
    assert(all.subrange(12, 12 + n) =~= body);
}

/// A packet that is announced too short is refused.
pub proof fn short_packets_are_refused(bytes: Seq<u8>)
    requires
        bytes.len() >= 4,
    ensures
        ({
            let n = bytes[0] + bytes[1] * 256 + bytes[2] * 65536 + bytes[3] * 16777216;
            &&& 10 <= n <= i32::MAX ==> announced_length(bytes) == Ok::<int, Seq<char>>(n)
            &&& n < 10 || n > i32::MAX ==> announced_length(bytes) is Err
        }),
{
}

/// The login comes first and carries the password; a login is accepted where it
/// is answered in kind and not with the number minus one; the command follows,
/// under a number of its own, and its answer is that of the same number.
pub proof fn login_comes_before_the_command(
    password: Seq<char>,
    command: Seq<char>,
    awaits_answer: bool,
    login: PacketView,
    answer: PacketView,
)
    ensures
        ({
            let (flow, action) = first_send(password, command, awaits_answer);
            let login_packet = PacketView { id: 1, kind: 3, body: password };
            let command_packet = PacketView { id: 2, kind: 2, body: command };
            let next = next_send(flow, SendEventView::Answered(Ok(login)));
            &&& action == SendActionView::Exchange(packet_bytes(login_packet))
            &&& next is Ok <==> login.id != -1 && login.kind == 2
            &&& next matches Ok((asking, asked)) ==> {
                let last = next_send(asking, SendEventView::Answered(Ok(answer)));
                let told = next_send(asking, SendEventView::Written(Ok(())));
                if awaits_answer {
                    &&& asked == SendActionView::Exchange(packet_bytes(command_packet))
                    &&& last is Ok <==> answer.id == 2
                    &&& last matches Ok((_, end)) ==> end == SendActionView::Done(Some(answer.body))
                } else {
                    &&& asked == SendActionView::Write(packet_bytes(command_packet))
                    &&& told matches Ok((_, end)) && end == SendActionView::Done(None)
                }
            }
        }),
{
}

/// What fails on the way is what is reported.
pub proof fn failures_are_reported(flow: SendView, e: Seq<char>)
    ensures
        flow.state is LoggingIn || flow.state is Asking ==> next_send(
            flow,
            SendEventView::Answered(Err(e)),
        ) == Err::<(SendView, SendActionView), Seq<char>>(e),
        flow.state is Telling ==> next_send(flow, SendEventView::Written(Err(e))) == Err::<
            (SendView, SendActionView),
            Seq<char>,
        >(e),
{
}

/// A server's remote console is switched on, on the port and under the password
/// that were chosen.
pub proof fn console_is_switched_on(port: u16, password: Seq<char>)
    ensures
        ({
            let set = rcon_properties(port, password);
            &&& set.len() == 3
            &&& set[0] == ("enable-rcon"@, "true"@)
            &&& set[1] == ("rcon.port"@, decimal(port as nat))
            &&& set[2] == ("rcon.password"@, password)
        }),
{
}

/// A line sets the key before its first equals sign; a line that begins with a
/// number sign or an exclamation mark is a remark.
pub proof fn lines_set_keys(key: Seq<char>, value: Seq<char>)
    requires
        !key.contains('='),
        key.len() > 0,
        !is_white(key[0]),
    ensures
        key[0] != '#' && key[0] != '!' ==> key_of(key + seq!['='] + value) == Some(trimmed(key)),
        key[0] == '#' || key[0] == '!' ==> key_of(key + seq!['='] + value) is None,
        key_of(key) is None,
        property_line(key, value) == key + seq!['='] + value,
{
    let line = key + seq!['='] + value;
    reveal_strlit("=");
    assert("="@ =~= seq!['=']);
    assert(line[0] == key[0]);
    crate::text::text_is_cut_at_the_first(key, '=', value);
}

/// A file that was updated ends in a newline, and its lines are joined by single
/// ones.
pub proof fn updated_file_ends_in_a_newline(raw: Seq<char>, entries: Seq<(Seq<char>, Seq<char>)>)
    ensures
        updated_file(raw, entries).last() == '\n',
        updated_file(raw, entries).drop_last() == joined(
            with_properties(lines_of(raw), entries, entries.len() as int),
            seq!['\n'],
        ),
{
    reveal_strlit("\n");
    assert("\n"@ =~= seq!['\n']);
    let file = joined(with_properties(lines_of(raw), entries, entries.len() as int), "\n"@);
    assert(file.push('\n').drop_last() =~= file);
}

} // verus!
