//! Starting devices by Wake-on-LAN.

use vstd::prelude::*;

use crate::ip;
use crate::ip::Ipv4Addr;
use crate::network_scanner;
use crate::network_scanner::{DeviceInfo, NetworkScanner};
use crate::outside::magic_packet;
use crate::target_startable::Startable;
use crate::text;
use crate::text::{join2, join4, read_hex_digit, write_decimal};

verus! {

// ---------------------------------------------------------------------------
// MAC addresses
// ---------------------------------------------------------------------------
/// A character that may separate the bytes of a MAC address.
pub open spec fn is_separator(c: char) -> bool {
    c == ':' || c == '-'
}

/// A MAC address without its separators.
pub open spec fn cleaned(mac: Seq<char>) -> Seq<char> {
    mac.filter(|c: char| !is_separator(c))
}

/// The two bytes of the UTF-8 text that stand for one byte of the address.
pub open spec fn pair(bytes: Seq<u8>, i: int) -> Seq<u8> {
    bytes.subrange(2 * i, 2 * i + 2)
}

/// The value that two bytes of text stand for: two hexadecimal digits.
pub open spec fn pair_value(p: Seq<u8>) -> Option<nat> {
    match (text::hex_value(p[0] as char), text::hex_value(p[1] as char)) {
        (Some(high), Some(low)) => Some(16 * high + low),
        _ => None,
    }
}

/// The first pair, from `i` on, that stands for no value; 6 if there is none.
pub open spec fn first_bad_pair(bytes: Seq<u8>, i: int) -> int
    decreases 6 - i,
{
    if i >= 6 || pair_value(pair(bytes, i)) is None {
        i
    } else {
        first_bad_pair(bytes, i + 1)
    }
}

/// Two bytes of text are whole characters: no cut falls inside one.
pub open spec fn is_whole(bytes: Seq<u8>, i: int) -> bool {
    vstd::utf8::is_char_boundary(bytes, 2 * i) && vstd::utf8::is_char_boundary(bytes, 2 * i + 2)
}

/// The text to show for a pair that stands for no value: the pair, or the
/// whole address where the pair cuts a character.
pub open spec fn bad_text(digits: Seq<char>, i: int) -> Seq<char> {
    let bytes = vstd::utf8::encode_utf8(digits);
    if is_whole(bytes, i) {
        vstd::utf8::decode_utf8(pair(bytes, i))
    } else {
        digits
    }
}

/// The bytes of a MAC address, or why the text is none.
pub open spec fn parsed(mac: Seq<char>) -> Result<Seq<u8>, Seq<char>> {
    let bytes = vstd::utf8::encode_utf8(cleaned(mac));
    let bad = first_bad_pair(bytes, 0);
    if bytes.len() != 12 {
        Err("MAC address must be 12 hex characters, got "@ + text::decimal(bytes.len()))
    } else if bad < 6 {
        Err("Invalid hex in MAC address: "@ + bad_text(cleaned(mac), bad))
    } else {
        Ok(Seq::new(6, |i: int| pair_value(pair(bytes, i))->0 as u8))
    }
}

/// Removes the separators of a MAC address.
fn clean(mac: &str) -> (r: String)
    ensures
        r@ == cleaned(mac@),
{
    let chars = text::chars_of(mac);
    let ghost keep = |c: char| !is_separator(c);
    let mut out = String::new();
    let mut i: usize = 0;
    proof {
        reveal(Seq::filter);
        assert(out@ == chars@.take(0).filter(keep));
    }
    while i < chars.len()
        invariant
            i <= chars@.len(),
            keep == (|c: char| !is_separator(c)),
            out@ == chars@.take(i as int).filter(keep),
        decreases chars.len() - i,
    {
        proof {
            reveal(Seq::filter);
            assert(chars@.take(i + 1).drop_last() == chars@.take(i as int));
            assert(chars@.take(i + 1).last() == chars@[i as int]);
        }
        let c = chars[i];
        if c != ':' && c != '-' {
            out.push(c);
        }
        i += 1;
    }
    proof {
        assert(chars@.take(chars@.len() as int) == mac@);
    }
    out
}

/// Reads the value that two bytes of text stand for.
fn read_pair(first: u8, second: u8) -> (r: Option<u8>)
    ensures
        match r {
            Some(v) => pair_value(seq![first, second]) == Some(v as nat),
            None => pair_value(seq![first, second]) is None,
        },
{
    match (read_hex_digit(first as char), read_hex_digit(second as char)) {
        (Some(high), Some(low)) => Some(16 * high + low),
        _ => None,
    }
}

/// Finds the first pair that stands for no value; 6 if there is none.
fn find_bad_pair(bytes: &[u8]) -> (r: usize)
    requires
        bytes@.len() == 12,
    ensures
        r == first_bad_pair(bytes@, 0),
        r <= 6,
        forall|i: int| 0 <= i < r ==> pair_value(#[trigger] pair(bytes@, i)) is Some,
{
    let mut i: usize = 0;
    while i < 6
        invariant
            bytes@.len() == 12,
            i <= 6,
            first_bad_pair(bytes@, 0) == first_bad_pair(bytes@, i as int),
            forall|j: int| 0 <= j < i ==> pair_value(#[trigger] pair(bytes@, j)) is Some,
        decreases 6 - i,
    {
        proof {
            assert(pair(bytes@, i as int) == seq![bytes@[2 * i as int], bytes@[2 * i + 1]]);
        }
        if read_pair(bytes[2 * i], bytes[2 * i + 1]).is_none() {
            return i;
        }
        i += 1;
    }
    i
}

/// Cuts a piece out of text.
fn cut(s: &str, from: usize, to: usize) -> (r: String)
    requires
        from < to <= vstd::utf8::encode_utf8(s@).len(),
        vstd::utf8::is_char_boundary(vstd::utf8::encode_utf8(s@), from as int),
        vstd::utf8::is_char_boundary(vstd::utf8::encode_utf8(s@), to as int),
    ensures
        r@ == vstd::utf8::decode_utf8(vstd::utf8::encode_utf8(s@).subrange(from as int, to as int)),
{
    let ghost whole = vstd::utf8::encode_utf8(s@);
    let (front, _back) = s.split_at(to);
    proof {
        vstd::utf8::encode_utf8_valid_utf8(s@);
        vstd::utf8::encode_utf8_valid_utf8(front@);
        assert(vstd::utf8::encode_utf8(front@) == whole.subrange(0, to as int));
        assert(vstd::utf8::encode_utf8(front@)[from as int] == whole[from as int]);
        vstd::utf8::is_char_boundary_iff_not_is_continuation_byte(whole, from as int);
        vstd::utf8::is_char_boundary_iff_not_is_continuation_byte(
            vstd::utf8::encode_utf8(front@),
            from as int,
        );
    }
    let (_before, piece) = front.split_at(from);
    proof {
        assert(vstd::utf8::encode_utf8(piece@) == whole.subrange(from as int, to as int));
        vstd::utf8::encode_utf8_decode_utf8(piece@);
    }
    piece.to_owned()
}

/// Parses a MAC address such as "aa:bb:cc:dd:ee:ff", "aa-bb-cc-dd-ee-ff" or
/// "aabbccddeeff".
pub fn parse_mac_address(mac: &str) -> (r: Result<[u8; 6], String>)
    ensures
        match r {
            Ok(bytes) => parsed(mac@) == Ok::<Seq<u8>, Seq<char>>(bytes@),
            Err(e) => parsed(mac@) == Err::<Seq<u8>, Seq<char>>(e@),
        },
{
    let cleaned_mac = clean(mac);
    let s = cleaned_mac.as_str();
    let bytes = s.as_bytes();
    let n: usize = bytes.len();
    if n != 12 {
        return Err(
            join2(
                "MAC address must be 12 hex characters, got ",
                write_decimal(n as u64).as_str(),
            ),
        );
    }
    let bad = find_bad_pair(bytes);
    if bad < 6 {
        if s.is_char_boundary(2 * bad) && s.is_char_boundary(2 * bad + 2) {
            let text = cut(s, 2 * bad, 2 * bad + 2);
            return Err(join2("Invalid hex in MAC address: ", text.as_str()));
        }
        return Err(join2("Invalid hex in MAC address: ", s));
    }
    let mut out: [u8; 6] = [0; 6];
    let mut i: usize = 0;
    while i < 6
        invariant
            i <= 6,
            bytes@.len() == 12,
            out@.len() == 6,
            forall|j: int| 0 <= j < 6 ==> pair_value(#[trigger] pair(bytes@, j)) is Some,
            forall|j: int|
                0 <= j < i ==> pair_value(#[trigger] pair(bytes@, j)) == Some(out@[j] as nat),
        decreases 6 - i,
    {
        proof {
            assert(pair(bytes@, i as int) == seq![bytes@[2 * i as int], bytes@[2 * i + 1]]);
            assert(pair_value(pair(bytes@, i as int)) is Some);
        }
        match read_pair(bytes[2 * i], bytes[2 * i + 1]) {
            Some(v) => {
                out[i] = v;
            },
            None => {},
        }
        i += 1;
    }
    proof {
        assert(out@ == Seq::new(6, |j: int| pair_value(pair(bytes@, j))->0 as u8)) by {
            assert forall|j: int| 0 <= j < 6 implies out@[j] == pair_value(
                #[trigger] pair(bytes@, j),
            )->0 as u8 by {}
        }
    }
    Ok(out)
}

// ---------------------------------------------------------------------------
// Waking a device
// ---------------------------------------------------------------------------
/// Starts a device by sending a magic packet to the network.
#[derive(Debug)]
pub struct WolStartable<'a> {
    /// MAC address of the device.
    pub mac: &'a str,
    /// Where packets that reach every host of the network are sent.
    pub broadcast_addr: String,
}

/// A step of a start by Wake-on-LAN.
#[derive(Debug)]
pub enum WolStep {
    /// Send the packet from one address to another, then `finish`.
    Broadcast { packet: [u8; 102], to: String, from: String },
    /// The start has ended.
    Done(Result<(), String>),
}

/// The packet that wakes the device with a MAC address: six bytes of `0xFF`,
/// then the address sixteen times.
pub open spec fn wakes(packet: Seq<u8>, mac: Seq<u8>) -> bool {
    &&& packet.len() == 102
    &&& forall|i: int| 0 <= i < 6 ==> #[trigger] packet[i] == 0xff
    &&& forall|i: int| 6 <= i < 102 ==> #[trigger] packet[i] == mac[(i - 6) % 6]
}

/// Where packets that reach every host of a network are sent.
pub open spec fn broadcast(network_base: Seq<char>) -> Seq<char> {
    network_base + ".255:9"@
}

impl<'a> WolStartable<'a> {
    /// A handle that wakes the device with a MAC address on a network.
    pub fn new(mac: &'a str, network_base: &str) -> (r: Self)
        ensures
            r.mac@ == mac@,
            r.broadcast_addr@ == broadcast(network_base@),
    {
        WolStartable { mac, broadcast_addr: join2(network_base, ".255:9") }
    }

    /// Ends the start with what came of sending the packet.
    pub fn finish(&self, sent: Result<(), String>) -> (r: Result<(), String>)
        ensures
            match sent {
                Ok(_) => r == Ok::<(), String>(()),
                Err(e) => r matches Err(m) && m@ == "Failed to send WOL packet to "@ + self.mac@
                    + ": "@ + e@,
            },
    {
        match sent {
            Ok(()) => Ok(()),
            Err(e) => Err(join4("Failed to send WOL packet to ", self.mac, ": ", e.as_str())),
        }
    }
}

impl<'a> Startable for WolStartable<'a> {
    type Step = WolStep;

    open spec fn starts_with(&self, devices: Map<Ipv4Addr, DeviceInfo>, step: WolStep) -> bool {
        if network_scanner::on_network(devices, self.mac@) {
            step == WolStep::Done(Ok(()))
        } else {
            match parsed(self.mac@) {
                Err(e) => {
                    &&& step matches WolStep::Done(Err(m))
                    &&& m@ == "Invalid MAC address '"@ + self.mac@ + "': "@ + e
                },
                Ok(mac) => {
                    &&& step matches WolStep::Broadcast { packet, to, from }
                    &&& wakes(packet@, mac)
                    &&& to@ == self.broadcast_addr@
                    &&& from@ == "0.0.0.0:0"@
                },
            }
        }
    }

    fn start(&self, scanner: &NetworkScanner) -> (step: WolStep) {
        if scanner.get_ip_by_mac(self.mac).is_some() {
            return WolStep::Done(Ok(()));
        }
        match parse_mac_address(self.mac) {
            Err(e) => WolStep::Done(
                Err(join4("Invalid MAC address '", self.mac, "': ", e.as_str())),
            ),
            Ok(bytes) => WolStep::Broadcast {
                packet: magic_packet(&bytes),
                to: self.broadcast_addr.clone(),
                from: "0.0.0.0:0".to_owned(),
            },
        }
    }
}

// ---------------------------------------------------------------------------
// Laws
// ---------------------------------------------------------------------------
/// A hexadecimal digit, as a small or a capital letter where it is one.
pub open spec fn hex_digit(value: int, capital: bool) -> char {
    if value < 10 {
        (48 + value) as char
    } else if capital {
        (55 + value) as char
    } else {
        (87 + value) as char
    }
}

/// The two digits of the byte at a place.
pub open spec fn written_byte(byte: u8, i: int, capital: spec_fn(int) -> bool) -> Seq<char> {
    seq![
        hex_digit(byte as int / 16, capital(2 * i)),
        hex_digit(byte as int % 16, capital(2 * i + 1)),
    ]
}

/// A MAC address with a separator between its bytes, each digit with the case
/// that is chosen for it.
pub open spec fn written(
    mac: Seq<u8>,
    separator: Seq<char>,
    capital: spec_fn(int) -> bool,
) -> Seq<char>
    decreases mac.len(),
{
    if mac.len() == 0 {
        Seq::empty()
    } else if mac.len() == 1 {
        written_byte(mac[0], 0, capital)
    } else {
        written(mac.drop_last(), separator, capital) + separator + written_byte(
            mac.last(),
            mac.len() - 1,
            capital,
        )
    }
}

/// A digit reads as its value and is one byte of text.
proof fn lemma_hex_digit(value: int, capital: bool)
    requires
        0 <= value < 16,
    ensures
        text::hex_value(hex_digit(value, capital)) == Some(value as nat),
        !is_separator(hex_digit(value, capital)),
        '0' <= hex_digit(value, capital) <= 'f',
{
}

/// Cleaning keeps digits and drops separators.
proof fn lemma_cleaned_joins(a: Seq<char>, b: Seq<char>)
    ensures
        cleaned(a + b) == cleaned(a) + cleaned(b),
    decreases b.len(),
{
    let keep = |c: char| !is_separator(c);
    reveal(Seq::filter);
    if b.len() == 0 {
        assert(a + b == a);
        assert(cleaned(a) + cleaned(b) == cleaned(a));
    } else {
        lemma_cleaned_joins(a, b.drop_last());
        assert((a + b).drop_last() == a + b.drop_last());
        assert((a + b).last() == b.last());
        if keep(b.last()) {
            assert((cleaned(a) + cleaned(b.drop_last())).push(b.last()) == cleaned(a) + cleaned(
                b.drop_last(),
            ).push(b.last()));
        }
    }
}

/// Nothing of a separator is left.
proof fn lemma_cleaned_separator(separator: Seq<char>)
    requires
        forall|i: int| 0 <= i < separator.len() ==> is_separator(#[trigger] separator[i]),
    ensures
        cleaned(separator) == Seq::<char>::empty(),
    decreases separator.len(),
{
    reveal(Seq::filter);
    if separator.len() > 0 {
        lemma_cleaned_separator(separator.drop_last());
        assert(is_separator(separator.last()));
    }
}

/// All of a written byte is left.
proof fn lemma_cleaned_byte(byte: u8, i: int, capital: spec_fn(int) -> bool)
    ensures
        cleaned(written_byte(byte, i, capital)) == written_byte(byte, i, capital),
{
    let w = written_byte(byte, i, capital);
    lemma_hex_digit(byte as int / 16, capital(2 * i));
    lemma_hex_digit(byte as int % 16, capital(2 * i + 1));
    reveal_with_fuel(Seq::filter, 3);
    assert(w.drop_last() == seq![w[0]]);
    assert(w.drop_last().drop_last() == Seq::<char>::empty());
    assert(cleaned(w) == w);
}

/// A written address is its digits, two for each byte, once it is cleaned.
proof fn lemma_cleaned_written(mac: Seq<u8>, separator: Seq<char>, capital: spec_fn(int) -> bool)
    requires
        forall|i: int| 0 <= i < separator.len() ==> is_separator(#[trigger] separator[i]),
    ensures
        ({
            let c = cleaned(written(mac, separator, capital));
            &&& c.len() == 2 * mac.len()
            &&& forall|i: int|
                0 <= i < mac.len() ==> {
                    &&& #[trigger] c[2 * i] == hex_digit(mac[i] as int / 16, capital(2 * i))
                    &&& c[2 * i + 1] == hex_digit(mac[i] as int % 16, capital(2 * i + 1))
                }
        }),
    decreases mac.len(),
{
    reveal(Seq::filter);
    let c = cleaned(written(mac, separator, capital));
    if mac.len() == 1 {
        lemma_cleaned_byte(mac[0], 0, capital);
    } else if mac.len() > 1 {
        let front = mac.drop_last();
        let w = written(front, separator, capital);
        let last = written_byte(mac.last(), mac.len() - 1, capital);
        lemma_cleaned_written(front, separator, capital);
        lemma_cleaned_joins(w + separator, last);
        lemma_cleaned_joins(w, separator);
        lemma_cleaned_separator(separator);
        lemma_cleaned_byte(mac.last(), mac.len() - 1, capital);
        let d = cleaned(w);
        assert(c == d + last);
        assert forall|i: int| 0 <= i < mac.len() implies {
            &&& #[trigger] c[2 * i] == hex_digit(mac[i] as int / 16, capital(2 * i))
            &&& c[2 * i + 1] == hex_digit(mac[i] as int % 16, capital(2 * i + 1))
        } by {
            if i < front.len() {
                assert(d[2 * i] == hex_digit(front[i] as int / 16, capital(2 * i)));
                assert(front[i] == mac[i]);
            }
        }
    }
}

/// Every way to write a MAC address is read back: with a small or a capital
/// letter for each digit, and with colons, hyphens or nothing between its
/// bytes.
pub proof fn written_addresses_are_read_back(
    mac: Seq<u8>,
    separator: Seq<char>,
    capital: spec_fn(int) -> bool,
)
    requires
        mac.len() == 6,
        forall|i: int| 0 <= i < separator.len() ==> is_separator(#[trigger] separator[i]),
    ensures
        parsed(written(mac, separator, capital)) == Ok::<Seq<u8>, Seq<char>>(mac),
{
    let w = written(mac, separator, capital);
    let c = cleaned(w);
    lemma_cleaned_written(mac, separator, capital);
    assert forall|k: int| 0 <= k < 12 implies '0' <= #[trigger] c[k] <= 'f' by {
        let i = k / 2;
        assert(c[2 * i] == hex_digit(mac[i] as int / 16, capital(2 * i)));
        lemma_hex_digit(mac[i] as int / 16, capital(2 * i));
        lemma_hex_digit(mac[i] as int % 16, capital(2 * i + 1));
        assert(k == 2 * i || k == 2 * i + 1);
    }
    assert(vstd::utf8::is_ascii_chars(c));
    vstd::utf8::is_ascii_chars_encode_utf8(c);
    let bytes = vstd::utf8::encode_utf8(c);
    assert forall|i: int| 0 <= i < 6 implies pair_value(#[trigger] pair(bytes, i)) == Some(
        mac[i] as nat,
    ) by {
        let p = pair(bytes, i);
        assert(c[2 * i] == hex_digit(mac[i] as int / 16, capital(2 * i)));
        lemma_hex_digit(mac[i] as int / 16, capital(2 * i));
        lemma_hex_digit(mac[i] as int % 16, capital(2 * i + 1));
        assert('0' <= c[2 * i] <= 'f');
        assert('0' <= c[2 * i + 1] <= 'f');
        assert(p[0] as char == c[2 * i]);
        assert(p[1] as char == c[2 * i + 1]);
    }
    lemma_no_bad_pair(bytes, 0);
    assert(Seq::new(6, |i: int| pair_value(pair(bytes, i))->0 as u8) == mac) by {
        assert forall|i: int| 0 <= i < 6 implies pair_value(#[trigger] pair(bytes, i))->0 as u8
            == mac[i] by {}
    }
}

/// There is no bad pair where each pair stands for a value.
proof fn lemma_no_bad_pair(bytes: Seq<u8>, i: int)
    requires
        0 <= i <= 6,
        forall|j: int| i <= j < 6 ==> pair_value(#[trigger] pair(bytes, j)) is Some,
    ensures
        first_bad_pair(bytes, i) == 6,
    decreases 6 - i,
{
    if i < 6 {
        assert(pair_value(pair(bytes, i)) is Some);
        lemma_no_bad_pair(bytes, i + 1);
    }
}

/// The pairs before the first bad one stand for values.
proof fn lemma_good_pairs(bytes: Seq<u8>, i: int, j: int)
    requires
        i <= j < first_bad_pair(bytes, i),
    ensures
        pair_value(pair(bytes, j)) is Some,
    decreases 6 - i,
{
    if i < j {
        lemma_good_pairs(bytes, i + 1, j);
    }
}

/// Text of ASCII bytes has the bytes as its characters.
proof fn lemma_ascii_bytes(bytes: Seq<u8>)
    requires
        forall|i: int| 0 <= i < bytes.len() ==> #[trigger] bytes[i] < 128,
    ensures
        vstd::utf8::valid_utf8(bytes),
        vstd::utf8::decode_utf8(bytes) == bytes.map_values(|b: u8| b as char),
    decreases bytes.len(),
{
    if bytes.len() > 0 {
        let b = bytes[0];
        let rest = vstd::utf8::pop_first_scalar(bytes);
        assert(b & 0x7f == b) by (bit_vector)
            requires
                b < 128,
        ;
        assert(rest == bytes.subrange(1, bytes.len() as int));
        assert forall|i: int| 0 <= i < rest.len() implies #[trigger] rest[i] < 128 by {
            assert(rest[i] == bytes[i + 1]);
        }
        lemma_ascii_bytes(rest);
        assert(bytes.map_values(|c: u8| c as char) == seq![b as char] + rest.map_values(
            |c: u8| c as char,
        ));
    }
}

/// Nothing but twelve hexadecimal digits, with separators anywhere among them,
/// is read as a MAC address.
pub proof fn only_hex_digits_are_read(mac: Seq<char>)
    requires
        parsed(mac) is Ok,
    ensures
        cleaned(mac).len() == 12,
        forall|k: int| 0 <= k < 12 ==> text::hex_value(#[trigger] cleaned(mac)[k]) is Some,
{
    let c = cleaned(mac);
    let bytes = vstd::utf8::encode_utf8(c);
    assert forall|k: int| 0 <= k < 12 implies text::hex_value((#[trigger] bytes[k]) as char) is Some
        && bytes[k] < 128 by {
        let i = k / 2;
        lemma_good_pairs(bytes, 0, i);
        let p = pair(bytes, i);
        assert(p[0] == bytes[2 * i] && p[1] == bytes[2 * i + 1]);
        assert(k == 2 * i || k == 2 * i + 1);
    }
    lemma_ascii_bytes(bytes);
    vstd::utf8::encode_utf8_decode_utf8(c);
    assert forall|k: int| 0 <= k < 12 implies text::hex_value(#[trigger] c[k]) is Some by {
        assert(c[k] == bytes[k] as char);
    }
}

/// Separators do not matter: two texts that differ in nothing else are read
/// alike.
pub proof fn separators_do_not_matter(a: Seq<char>, b: Seq<char>)
    requires
        cleaned(a) == cleaned(b),
    ensures
        parsed(a) == parsed(b),
{
}

/// A device that is on the network is left alone.
pub proof fn waking_leaves_running_devices_alone(
    starter: WolStartable,
    devices: Map<Ipv4Addr, DeviceInfo>,
    step: WolStep,
)
    requires
        network_scanner::on_network(devices, starter.mac@),
        starter.starts_with(devices, step),
    ensures
        step !is Broadcast,
{
}

/// A written address is parsed as the bytes that it writes.
pub proof fn written_address_is_parsed(
    mac: &str,
    result: Result<[u8; 6], String>,
    bytes: Seq<u8>,
    separator: Seq<char>,
    capital: spec_fn(int) -> bool,
)
    requires
        call_ensures(parse_mac_address, (mac,), result),
        bytes.len() == 6,
        forall|i: int| 0 <= i < separator.len() ==> (#[trigger] separator[i] == ':' || separator[i]
            == '-'),
        mac@ == written(bytes, separator, capital),
    ensures
        result matches Ok(r) && r@ == bytes,
{
    written_addresses_are_read_back(bytes, separator, capital);
}

/// A hexadecimal digit.
pub open spec fn is_hex_digit(c: char) -> bool {
    ||| '0' <= c && c <= '9'
    ||| 'a' <= c && c <= 'f'
    ||| 'A' <= c && c <= 'F'
}

/// ASCII text without separators is left as it is.
proof fn lemma_no_separators(s: Seq<char>)
    requires
        forall|i: int| 0 <= i < s.len() ==> (#[trigger] s[i] != ':' && s[i] != '-'),
    ensures
        cleaned(s) == s,
    decreases s.len(),
{
    reveal(Seq::filter);
    if s.len() > 0 {
        lemma_no_separators(s.drop_last());
        assert(s[s.len() - 1] == s.last());
        assert(s.drop_last().push(s.last()) == s);
    }
}

/// A colon or a dash, wherever it stands, changes nothing in what an address
/// is read as.
pub proof fn colons_and_dashes_are_ignored(
    with: &str,
    without: &str,
    x: Seq<char>,
    separator: char,
    y: Seq<char>,
    r: Result<[u8; 6], String>,
    s: Result<[u8; 6], String>,
)
    requires
        separator == ':' || separator == '-',
        with@ == x + seq![separator] + y,
        without@ == x + y,
        call_ensures(parse_mac_address, (with,), r),
        call_ensures(parse_mac_address, (without,), s),
    ensures
        match (r, s) {
            (Ok(a), Ok(b)) => a@ == b@,
            (Err(a), Err(b)) => a@ == b@,
            _ => false,
        },
{
    let mark = seq![separator];
    assert forall|i: int| 0 <= i < mark.len() implies is_separator(#[trigger] mark[i]) by {}
    lemma_cleaned_separator(mark);
    lemma_cleaned_joins(x + mark, y);
    lemma_cleaned_joins(x, mark);
    lemma_cleaned_joins(x, y);
    assert(cleaned(x) + Seq::<char>::empty() == cleaned(x));
}

/// Text without separators is an address exactly when it is twelve hexadecimal
/// digits, and each two of them are one byte of the address.
pub proof fn twelve_hex_digits_are_an_address(mac: &str, result: Result<[u8; 6], String>)
    requires
        call_ensures(parse_mac_address, (mac,), result),
        forall|i: int| 0 <= i < mac@.len() ==> (#[trigger] mac@[i] != ':' && mac@[i] != '-'),
    ensures
        result is Ok <==> mac@.len() == 12 && forall|i: int|
            0 <= i < 12 ==> is_hex_digit(#[trigger] mac@[i]),
        result matches Ok(bytes) ==> forall|i: int|
            0 <= i < 6 ==> #[trigger] bytes@[i] == 16 * ip::nibble(mac@[2 * i]) + ip::nibble(
                mac@[2 * i + 1],
            ),
{
    let c = mac@;
    let bytes = vstd::utf8::encode_utf8(c);
    lemma_no_separators(c);
    if result is Ok {
        assert forall|i: int| 0 <= i < 12 implies #[trigger] bytes[i] < 128 by {
            let p = pair(bytes, i / 2);
            lemma_good_pair(bytes, 0, i / 2);
            assert(p[i % 2] == bytes[i]);
        }
        text::lemma_low_bytes(c);
        vstd::utf8::is_ascii_chars_encode_utf8(c);
        assert forall|i: int| 0 <= i < 12 implies is_hex_digit(#[trigger] c[i]) by {
            let p = pair(bytes, i / 2);
            lemma_good_pair(bytes, 0, i / 2);
            assert(p[i % 2] == bytes[i]);
            assert(c[i] as u8 == bytes[i]);
        }
        let out = result->Ok_0@;
        assert forall|i: int| 0 <= i < 6 implies #[trigger] out[i] == 16 * ip::nibble(c[2 * i])
            + ip::nibble(c[2 * i + 1]) by {
            let p = pair(bytes, i);
            lemma_good_pair(bytes, 0, i);
            assert(p[0] == bytes[2 * i] && p[1] == bytes[2 * i + 1]);
            assert(c[2 * i] as u8 == bytes[2 * i] && c[2 * i + 1] as u8 == bytes[2 * i + 1]);
        }
    }
    if c.len() == 12 && forall|i: int| 0 <= i < 12 ==> is_hex_digit(#[trigger] c[i]) {
        assert forall|i: int| 0 <= i < c.len() implies '\0' <= #[trigger] c[i] <= '\u{7f}' by {
            assert(is_hex_digit(c[i]));
        }
        assert(vstd::utf8::is_ascii_chars(c));
        vstd::utf8::is_ascii_chars_encode_utf8(c);
        let bad = first_bad_pair(bytes, 0);
        lemma_bad_pair(bytes, 0);
        if bad < 6 {
            let p = pair(bytes, bad);
            assert(p[0] == bytes[2 * bad] && p[1] == bytes[2 * bad + 1]);
            assert(is_hex_digit(c[2 * bad]) && is_hex_digit(c[2 * bad + 1]));
            assert(c[2 * bad] as u8 == bytes[2 * bad]);
            assert(c[2 * bad + 1] as u8 == bytes[2 * bad + 1]);
        }
    }
}

/// Where no pair is bad, each has a value, of two digits.
proof fn lemma_good_pair(bytes: Seq<u8>, i: int, k: int)
    requires
        0 <= i <= k < 6,
        first_bad_pair(bytes, i) >= 6,
    ensures
        pair_value(pair(bytes, k)) is Some,
        text::hex_value(pair(bytes, k)[0] as char) is Some,
        text::hex_value(pair(bytes, k)[1] as char) is Some,
        pair(bytes, k)[0] < 128,
        pair(bytes, k)[1] < 128,
    decreases k - i,
{
    if i < k {
        lemma_good_pair(bytes, i + 1, k);
    }
}

/// The first bad pair has no value.
proof fn lemma_bad_pair(bytes: Seq<u8>, i: int)
    requires
        0 <= i <= 6,
    ensures
        i <= first_bad_pair(bytes, i) <= 6,
        first_bad_pair(bytes, i) < 6 ==> pair_value(pair(bytes, first_bad_pair(bytes, i))) is None,
    decreases 6 - i,
{
    if i < 6 && pair_value(pair(bytes, i)) is Some {
        lemma_bad_pair(bytes, i + 1);
    }
}

/// Text without separators is no address where its encoding has not twelve
/// bytes, and the error says how many there are.
pub proof fn wrong_length_is_told(mac: &str, result: Result<[u8; 6], String>)
    requires
        call_ensures(parse_mac_address, (mac,), result),
        forall|i: int| 0 <= i < mac@.len() ==> (#[trigger] mac@[i] != ':' && mac@[i] != '-'),
        vstd::utf8::encode_utf8(mac@).len() != 12,
    ensures
        result matches Err(e) && e@ == "MAC address must be 12 hex characters, got "@
            + text::decimal(vstd::utf8::encode_utf8(mac@).len()),
{
    lemma_no_separators(mac@);
}

/// Twelve ASCII characters other than separators are no address where one of
/// them is no hexadecimal digit, and the error shows the first pair with such a
/// character.
pub proof fn first_bad_pair_is_told(mac: &str, result: Result<[u8; 6], String>, k: int)
    requires
        call_ensures(parse_mac_address, (mac,), result),
        vstd::utf8::is_ascii_chars(mac@),
        forall|i: int| 0 <= i < mac@.len() ==> (#[trigger] mac@[i] != ':' && mac@[i] != '-'),
        mac@.len() == 12,
        0 <= k < 6,
        forall|i: int| 0 <= i < 2 * k ==> is_hex_digit(#[trigger] mac@[i]),
        !is_hex_digit(mac@[2 * k]) || !is_hex_digit(mac@[2 * k + 1]),
    ensures
        result matches Err(e) && e@ == "Invalid hex in MAC address: "@ + seq![
            mac@[2 * k],
            mac@[2 * k + 1],
        ],
{
    let c = mac@;
    lemma_no_separators(c);
    vstd::utf8::is_ascii_chars_encode_utf8(c);
    vstd::utf8::encode_utf8_valid_utf8(c);
    let bytes = vstd::utf8::encode_utf8(c);
    assert forall|i: int| 0 <= i < 12 implies bytes[i] as char == #[trigger] c[i] && bytes[i]
        < 128 by {
        assert('\0' <= c[i] <= '\u{7f}');
        assert(c[i] as u8 == bytes[i]);
    }
    assert forall|i: int| 0 <= i <= 6 implies #[trigger] vstd::utf8::is_char_boundary(
        bytes,
        2 * i,
    ) by {
        if i < 6 {
            assert(bytes[2 * i] as char == c[2 * i]);
            vstd::utf8::is_char_boundary_iff_not_is_continuation_byte(bytes, 2 * i);
        } else {
            vstd::utf8::is_char_boundary_start_end_of_seq(bytes);
        }
    }
    assert forall|i: int| 0 <= i < k implies pair_value(#[trigger] pair(bytes, i)) is Some by {
        let p = pair(bytes, i);
        assert(is_hex_digit(c[2 * i]) && is_hex_digit(c[2 * i + 1]));
        assert(p[0] as char == c[2 * i] && p[1] as char == c[2 * i + 1]);
    }
    let p = pair(bytes, k);
    assert(bytes[2 * k] as char == c[2 * k] && bytes[2 * k + 1] as char == c[2 * k + 1]);
    assert(p[0] as char == c[2 * k] && p[1] as char == c[2 * k + 1]);
    assert(pair_value(p) is None);
    lemma_first_bad(bytes, 0, k);
    assert(vstd::utf8::is_char_boundary(bytes, 2 * (k + 1)));
    assert(2 * (k + 1) == 2 * k + 2);
    assert(vstd::utf8::is_char_boundary(bytes, 2 * k));
    assert(is_whole(bytes, k));
    lemma_ascii_bytes(p);
    assert(p.map_values(|b: u8| b as char) == seq![c[2 * k], c[2 * k + 1]]);
}

/// The first bad pair is where all before it are good.
proof fn lemma_first_bad(bytes: Seq<u8>, i: int, k: int)
    requires
        0 <= i <= k < 6,
        forall|j: int| i <= j < k ==> pair_value(#[trigger] pair(bytes, j)) is Some,
        pair_value(pair(bytes, k)) is None,
    ensures
        first_bad_pair(bytes, i) == k,
    decreases k - i,
{
    if i < k {
        assert(pair_value(pair(bytes, i)) is Some);
        lemma_first_bad(bytes, i + 1, k);
    }
}

/// A device that is off the network is woken by the packet of its address: six
/// bytes of 255, then the address sixteen times, sent to port 9 of the last
/// address of the network from any port.
pub proof fn absent_device_is_woken(
    starter: WolStartable,
    devices: Map<Ipv4Addr, DeviceInfo>,
    step: WolStep,
    bytes: Seq<u8>,
    separator: Seq<char>,
    capital: spec_fn(int) -> bool,
    k: int,
)
    requires
        starter.starts_with(devices, step),
        !network_scanner::on_network(devices, starter.mac@),
        bytes.len() == 6,
        forall|i: int| 0 <= i < separator.len() ==> (#[trigger] separator[i] == ':' || separator[i]
            == '-'),
        starter.mac@ == written(bytes, separator, capital),
        0 <= k < 16,
    ensures
        ({
            &&& step matches WolStep::Broadcast { packet, to, from }
            &&& packet@.len() == 102
            &&& packet@.subrange(0, 6) == seq![255u8, 255u8, 255u8, 255u8, 255u8, 255u8]
            &&& packet@.subrange(6 + 6 * k, 12 + 6 * k) == bytes
            &&& to@ == starter.broadcast_addr@
            &&& from@ == "0.0.0.0:0"@
        }),
{
    written_addresses_are_read_back(bytes, separator, capital);
    lemma_packet(step->packet@, bytes, k);
}

/// The parts of a packet that wakes a device.
proof fn lemma_packet(packet: Seq<u8>, mac: Seq<u8>, k: int)
    requires
        wakes(packet, mac),
        mac.len() == 6,
        0 <= k < 16,
    ensures
        packet.subrange(0, 6) == seq![255u8, 255u8, 255u8, 255u8, 255u8, 255u8],
        packet.subrange(6 + 6 * k, 12 + 6 * k) == mac,
{
    let part = packet.subrange(6 + 6 * k, 12 + 6 * k);
    assert forall|i: int| 0 <= i < 6 implies part[i] == #[trigger] mac[i] by {
        let at = 6 + 6 * k + i;
        assert(packet[at] == mac[(at - 6) % 6]);
        assert((at - 6) % 6 == i);
    }
    assert(part == mac);
    assert(packet.subrange(0, 6) == seq![255u8, 255u8, 255u8, 255u8, 255u8, 255u8]);
}

/// Text that is no address is told, and nothing is sent.
pub proof fn bad_address_is_not_woken(
    starter: WolStartable,
    devices: Map<Ipv4Addr, DeviceInfo>,
    step: WolStep,
    result: Result<[u8; 6], String>,
)
    requires
        starter.starts_with(devices, step),
        !network_scanner::on_network(devices, starter.mac@),
        call_ensures(parse_mac_address, (starter.mac,), result),
        result is Err,
    ensures
        ({
            &&& step matches WolStep::Done(Err(m))
            &&& m@ == "Invalid MAC address '"@ + starter.mac@ + "': "@ + result->Err_0@
        }),
{
}

/// A handle wakes the device that it is made for on its network, and ends with
/// what came of sending the packet.
pub proof fn waking_ends_with_the_packet(
    mac: &'static str,
    network_base: &str,
    starter: WolStartable<'static>,
    sent: Result<(), String>,
    result: Result<(), String>,
)
    requires
        call_ensures(WolStartable::new, (mac, network_base), starter),
        call_ensures(WolStartable::finish, (&starter, sent), result),
    ensures
        starter.mac@ == mac@,
        starter.broadcast_addr@ == network_base@ + ".255:9"@,
        sent is Ok ==> result is Ok,
        sent is Err ==> result is Err && result->Err_0@ == "Failed to send WOL packet to "@ + mac@
            + ": "@ + sent->Err_0@,
{
}

} // verus!
