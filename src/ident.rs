//! Identities of Bluetooth and 433 MHz sensors, and the decoders that
//! produce them.

use vstd::prelude::*;
use crate::number::{digit_of, digit_value, parse_unsigned, unsigned_value};
use crate::text::{
    chars_of, find_char, find_from, has_prefix, lemma_find_char, push_char, same_text, starts_with,
    string_of_range,
};

verus! {

/// A 6-byte Bluetooth address, least significant byte first.
#[derive(Debug, Clone, Copy, PartialEq, Eq, PartialOrd, Ord, Hash, Default)]
pub struct BDAddr {
    pub address: [u8; 6],
}

/// Why a Bluetooth address suffix could not be read.
#[derive(Debug, Clone, Copy, PartialEq, Eq, Structural)]
pub enum MacError {
    InvalidDigit,
    InvalidDigitCount,
}

/// The byte written by the two hex digits at pair `i` of `part`; none
/// when either is no hex digit.
pub open spec fn pair_value(part: Seq<char>, i: int) -> Option<int> {
    let hi = digit_value(part[2 * i]);
    let lo = digit_value(part[2 * i + 1]);
    if hi < 16 && lo < 16 {
        Some(hi * 16 + lo)
    } else {
        None
    }
}

/// The address whose last three bytes, most significant first, are written
/// as six hex digits in `part`, after the fixed vendor prefix `58:2D:34`.
pub open spec fn mac_from_part(part: Seq<char>) -> Result<Seq<u8>, MacError> {
    if part.len() != 6 {
        Err(MacError::InvalidDigitCount)
    } else if exists|i: int| 0 <= i < 3 && #[trigger] pair_value(part, i) is None {
        Err(MacError::InvalidDigit)
    } else {
        Ok(
            seq![
                pair_value(part, 2)->0 as u8,
                pair_value(part, 1)->0 as u8,
                pair_value(part, 0)->0 as u8,
                0x34u8,
                0x2Du8,
                0x58u8,
            ],
        )
    }
}

pub open spec fn hex_char(d: int) -> char {
    if d < 10 {
        crate::number::digit_char(d)
    } else if d == 10 {
        'A'
    } else if d == 11 {
        'B'
    } else if d == 12 {
        'C'
    } else if d == 13 {
        'D'
    } else if d == 14 {
        'E'
    } else {
        'F'
    }
}

/// A byte as two upper-case hex digits.
pub open spec fn hex_pair(b: u8) -> Seq<char> {
    seq![hex_char(b as int / 16), hex_char(b as int % 16)]
}

/// An address as colon-separated hex pairs, most significant byte first.
pub open spec fn mac_text(a: Seq<u8>) -> Seq<char> {
    hex_pair(a[5]) + seq![':'] + hex_pair(a[4]) + seq![':'] + hex_pair(a[3]) + seq![':'] + hex_pair(
        a[2],
    ) + seq![':'] + hex_pair(a[1]) + seq![':'] + hex_pair(a[0])
}

/// The suffix that names an address after the vendor prefix.
pub open spec fn mac_part_text(a: Seq<u8>) -> Seq<char> {
    hex_pair(a[2]) + hex_pair(a[1]) + hex_pair(a[0])
}

fn hex_char_of(d: u8) -> (r: char)
    requires
        d < 16,
    ensures
        r == hex_char(d as int),
{
    if d < 10 {
        let c = if d == 0 {
            '0'
        } else if d == 1 {
            '1'
        } else if d == 2 {
            '2'
        } else if d == 3 {
            '3'
        } else if d == 4 {
            '4'
        } else if d == 5 {
            '5'
        } else if d == 6 {
            '6'
        } else if d == 7 {
            '7'
        } else if d == 8 {
            '8'
        } else {
            '9'
        };
        c
    } else if d == 10 {
        'A'
    } else if d == 11 {
        'B'
    } else if d == 12 {
        'C'
    } else if d == 13 {
        'D'
    } else if d == 14 {
        'E'
    } else {
        'F'
    }
}

proof fn lemma_hex_pair_value(t: Seq<char>, i: int, b: u8)
    requires
        0 <= i,
        2 * i + 2 <= t.len(),
        t.subrange(2 * i, 2 * i + 2) == hex_pair(b),
    ensures
        pair_value(t, i) == Some(b as int),
{
    let hi = b as int / 16;
    let lo = b as int % 16;
    assert(t[2 * i] == t.subrange(2 * i, 2 * i + 2)[0]);
    assert(t[2 * i + 1] == t.subrange(2 * i, 2 * i + 2)[1]);
    assert(digit_value(hex_char(hi)) == hi);
    assert(digit_value(hex_char(lo)) == lo);
}

impl BDAddr {
    /// Reads an address from the hex suffix that follows the vendor prefix
    /// `58:2D:34`: exactly six hex digits, most significant pair first.
    pub fn from_mi_temp_mac_part(part: &str) -> (r: Result<BDAddr, MacError>)
        ensures
            match r {
                Ok(a) => mac_from_part(part@) == Ok::<Seq<u8>, MacError>(a.address@),
                Err(e) => mac_from_part(part@) == Err::<Seq<u8>, MacError>(e),
            },
    {
        let v = chars_of(part);
        if v.len() != 6 {
            return Err(MacError::InvalidDigitCount);
        }
        let mut bytes: Vec<u8> = Vec::new();
        let mut i: usize = 0;
        while i < 3
            invariant
                i <= 3,
                v@.len() == 6,
                v@ == part@,
                bytes@.len() == i,
                forall|j: int| 0 <= j < i ==> #[trigger] pair_value(v@, j) == Some(bytes@[j] as int),
            decreases 3 - i,
        {
            let hi = digit_of(v[2 * i]);
            let lo = digit_of(v[2 * i + 1]);
            if hi >= 16 || lo >= 16 {
                assert(pair_value(part@, i as int) is None);
                return Err(MacError::InvalidDigit);
            }
            bytes.push((hi * 16 + lo) as u8);
            i = i + 1;
        }
        let address: [u8; 6] = [bytes[2], bytes[1], bytes[0], 0x34, 0x2D, 0x58];
        assert(pair_value(v@, 0) == Some(bytes@[0] as int));
        assert(pair_value(v@, 1) == Some(bytes@[1] as int));
        assert(pair_value(v@, 2) == Some(bytes@[2] as int));
        assert(address@ == mac_from_part(part@)->Ok_0);
        Ok(BDAddr { address })
    }

    /// The address as colon-separated upper-case hex pairs, most
    /// significant byte first.
    pub fn to_string(&self) -> (r: String)
        ensures
            r@ == mac_text(self.address@),
    {
        let mut r = String::new();
        let mut k: usize = 6;
        while k > 0
            invariant
                k <= 6,
                r@ == mac_text(self.address@).take((6 - k) * 3 - if k < 6 {
                    1int
                } else {
                    0int
                }),
            decreases k,
        {
            k = k - 1;
            if k < 5 {
                push_char(&mut r, ':');
            }
            let b = self.address[k];
            push_char(&mut r, hex_char_of(b / 16));
            push_char(&mut r, hex_char_of(b % 16));
            assert(r@ == mac_text(self.address@).take((6 - k) * 3 - 1));
        }
        assert(mac_text(self.address@).len() == 17);
        r
    }
}

/// Whether address `a` sorts before `b`, comparing bytes from index `i`
/// on, index 0 first.
pub open spec fn addr_less(a: Seq<u8>, b: Seq<u8>, i: int) -> bool
    decreases 6 - i,
{
    if i < 0 || i >= 6 {
        false
    } else if a[i] < b[i] {
        true
    } else if a[i] > b[i] {
        false
    } else {
        addr_less(a, b, i + 1)
    }
}

pub proof fn lemma_addr_less_transitive(a: Seq<u8>, b: Seq<u8>, c: Seq<u8>, i: int)
    requires
        addr_less(a, b, i),
        addr_less(b, c, i),
    ensures
        addr_less(a, c, i),
    decreases 6 - i,
{
    if 0 <= i < 6 && a[i] == b[i] && b[i] == c[i] {
        lemma_addr_less_transitive(a, b, c, i + 1);
    }
}

/// Two addresses that are equal in no order are equal from index `i` on.
pub proof fn lemma_addr_less_total(a: Seq<u8>, b: Seq<u8>, i: int)
    requires
        a.len() == 6,
        b.len() == 6,
        0 <= i <= 6,
        !addr_less(a, b, i),
        !addr_less(b, a, i),
    ensures
        a.subrange(i, 6) == b.subrange(i, 6),
    decreases 6 - i,
{
    if i < 6 {
        lemma_addr_less_total(a, b, i + 1);
        assert(a.subrange(i, 6) =~= seq![a[i]] + a.subrange(i + 1, 6));
        assert(b.subrange(i, 6) =~= seq![b[i]] + b.subrange(i + 1, 6));
    } else {
        assert(a.subrange(i, 6) =~= b.subrange(i, 6));
    }
}

impl BDAddr {
    /// Whether this address sorts before `o`, byte 0 first.
    pub fn less_than(&self, o: &BDAddr) -> (r: bool)
        ensures
            r == addr_less(self.address@, o.address@, 0),
    {
        let mut i: usize = 0;
        while i < 6
            invariant
                i <= 6,
                addr_less(self.address@, o.address@, 0) == addr_less(
                    self.address@,
                    o.address@,
                    i as int,
                ),
            decreases 6 - i,
        {
            if self.address[i] < o.address[i] {
                return true;
            }
            if self.address[i] > o.address[i] {
                return false;
            }
            i = i + 1;
        }
        false
    }
}

/// Decoding the suffix of an address that carries the vendor prefix gives
/// the address back.
pub proof fn lemma_mac_round_trip(a: BDAddr)
    requires
        a.address@[5] == 0x58,
        a.address@[4] == 0x2D,
        a.address@[3] == 0x34,
    ensures
        mac_from_part(mac_part_text(a.address@)) == Ok::<Seq<u8>, MacError>(a.address@),
{
    let s = a.address@;
    let t = mac_part_text(s);
    assert(t.subrange(0, 2) == hex_pair(s[2]));
    assert(t.subrange(2, 4) == hex_pair(s[1]));
    assert(t.subrange(4, 6) == hex_pair(s[0]));
    lemma_hex_pair_value(t, 0, s[2]);
    lemma_hex_pair_value(t, 1, s[1]);
    lemma_hex_pair_value(t, 2, s[0]);
    assert(pair_value(t, 0) == Some(s[2] as int));
    assert(pair_value(t, 1) == Some(s[1] as int));
    assert(pair_value(t, 2) == Some(s[0] as int));
    assert(!exists|i: int| 0 <= i < 3 && #[trigger] pair_value(t, i) is None);
    assert(mac_from_part(t)->Ok_0 =~= s);
}

/// A 433 MHz sensor: model name, numeric id and channel.
#[derive(Debug, Clone, PartialEq, Eq, Hash, Default)]
pub struct RfDeviceId {
    pub name: String,
    pub id: u16,
    pub channel: u8,
}

/// Why a sensor identity could not be read.
#[derive(Debug, Clone, Copy, PartialEq, Eq, Structural)]
pub enum RfIdError {
    InvalidNumber,
}

/// The sensor identity written `<name>:<id>:<channel>`; the channel is
/// everything after the second colon.
pub open spec fn rf_id_value(s: Seq<char>) -> Option<(Seq<char>, int, int)> {
    let i1 = find_char(s, ':');
    if i1 >= s.len() {
        None
    } else {
        let r1 = s.skip(i1 + 1);
        let i2 = find_char(r1, ':');
        if i2 >= r1.len() {
            None
        } else {
            match (unsigned_value(r1.take(i2), 10, 0xffff), unsigned_value(r1.skip(i2 + 1), 10, 0xff)) {
                (Some(id), Some(ch)) => Some((s.take(i1), id, ch)),
                _ => None,
            }
        }
    }
}

impl RfDeviceId {
    pub open spec fn same(&self, o: &RfDeviceId) -> bool {
        self.name@ == o.name@ && self.id == o.id && self.channel == o.channel
    }

    /// A copy of this identity.
    pub fn to_owned(&self) -> (r: RfDeviceId)
        ensures
            r.same(self),
    {
        RfDeviceId { name: self.name.clone(), id: self.id, channel: self.channel }
    }

    /// Whether two identities are equal.
    pub fn equals(&self, o: &RfDeviceId) -> (r: bool)
        ensures
            r == self.same(o),
    {
        self.id == o.id && self.channel == o.channel && self.name == o.name
    }

    /// Reads an identity written `<name>:<id>:<channel>`.
    pub fn parse(s: &str) -> (r: Result<RfDeviceId, RfIdError>)
        ensures
            match r {
                Ok(d) => rf_id_value(s@) == Some((d.name@, d.id as int, d.channel as int)),
                Err(_) => rf_id_value(s@) is None,
            },
    {
        let v = chars_of(s);
        let c = v.as_slice();
        let i1 = find_from(c, 0, ':');
        proof {
            assert(c@.skip(0) == c@);
            lemma_find_char(c@, ':');
        }
        if i1 >= c.len() {
            return Err(RfIdError::InvalidNumber);
        }
        let i2 = find_from(c, i1 + 1, ':');
        proof {
            lemma_find_char(c@.skip(i1 + 1), ':');
        }
        if i2 >= c.len() {
            return Err(RfIdError::InvalidNumber);
        }
        proof {
            let r1 = c@.skip(i1 + 1);
            assert(r1.take(i2 - i1 - 1) == c@.subrange(i1 + 1, i2 as int));
            assert(r1.skip(i2 - i1) == c@.subrange(i2 + 1, c@.len() as int));
            assert(c@.take(i1 as int) == c@.subrange(0, i1 as int));
        }
        let id = parse_unsigned(&c[i1 + 1..i2], 10, 0xffff);
        let channel = parse_unsigned(&c[i2 + 1..c.len()], 10, 0xff);
        match (id, channel) {
            (Some(id), Some(channel)) => Ok(
                RfDeviceId {
                    name: string_of_range(c, 0, i1),
                    id: id as u16,
                    channel: channel as u8,
                },
            ),
            _ => Err(RfIdError::InvalidNumber),
        }
    }
}

/// A reading in the `;`-separated text format of a 433 MHz gateway.
/// The temperature is in millionths of a degree Celsius.
#[derive(Debug, Clone, PartialEq, Eq)]
pub struct RfPayload {
    pub name: String,
    pub id: u16,
    pub channel: u8,
    pub battery: bool,
    pub temperature: i64,
    pub humidity: u8,
}

impl RfPayload {
    /// The identity of the sensor that sent the reading.
    pub fn device_id(&self) -> (r: RfDeviceId)
        ensures
            r.name@ == self.name@,
            r.id == self.id,
            r.channel == self.channel,
    {
        RfDeviceId { name: self.name.clone(), id: self.id, channel: self.channel }
    }
}

/// Field `n` (from 0) of `s` split at every `c`.
pub open spec fn field_at(s: Seq<char>, c: char, n: nat) -> Option<Seq<char>>
    decreases n,
{
    let i = find_char(s, c);
    if n == 0 {
        Some(s.take(i))
    } else if i < s.len() {
        field_at(s.skip(i + 1), c, (n - 1) as nat)
    } else {
        None
    }
}

/// What follows `tag` in field `n` of a `;`-separated record.
pub open spec fn tagged(s: Seq<char>, n: nat, tag: Seq<char>) -> Option<Seq<char>> {
    match field_at(s, ';', n) {
        Some(f) => if has_prefix(f, tag) {
            Some(f.skip(tag.len() as int))
        } else {
            None
        },
        None => None,
    }
}

/// The record `<kind>;<seq>;<name>;ID=<dec>;CHN=<dec>;BAT=<text>;TEMP=<hex>;HUM=<dec>`
/// as name, id, channel, battery state, temperature in millionths of a
/// degree (the hex value counts tenths) and humidity.
pub open spec fn rf_payload_value(s: Seq<char>) -> Option<(Seq<char>, int, int, bool, int, int)> {
    match (
        field_at(s, ';', 2),
        tagged(s, 3, "ID="@),
        tagged(s, 4, "CHN="@),
        tagged(s, 5, "BAT="@),
        tagged(s, 6, "TEMP="@),
        tagged(s, 7, "HUM="@),
    ) {
        (Some(name), Some(id), Some(ch), Some(bat), Some(temp), Some(hum)) => match (
            unsigned_value(id, 10, 0xffff),
            unsigned_value(ch, 10, 0xff),
            unsigned_value(temp, 16, 0xffff_ffff),
            unsigned_value(hum, 10, 0xff),
        ) {
            (Some(id), Some(ch), Some(t), Some(h)) => Some((name, id, ch, bat == "OK"@, t * 100_000, h)),
            _ => None,
        },
        _ => None,
    }
}

/// Bounds of field `n` of `s` split at `c`.
fn field_bounds(s: &[char], c: char, n: usize) -> (r: Option<(usize, usize)>)
    ensures
        r is Some <==> field_at(s@, c, n as nat) is Some,
        match r {
            Some((lo, hi)) => lo <= hi <= s.len() && s@.subrange(lo as int, hi as int) == field_at(
                s@,
                c,
                n as nat,
            )->0,
            None => true,
        },
{
    let mut lo: usize = 0;
    let mut k: usize = 0;
    assert(s@.skip(0) == s@);
    while k < n
        invariant
            k <= n,
            lo <= s.len(),
            field_at(s@, c, n as nat) == field_at(s@.skip(lo as int), c, (n - k) as nat),
        decreases n - k,
    {
        let e = find_from(s, lo, c);
        proof {
            lemma_find_char(s@.skip(lo as int), c);
        }
        if e >= s.len() {
            return None;
        }
        assert(s@.skip(lo as int).skip(e - lo + 1) == s@.skip(e + 1));
        lo = e + 1;
        k = k + 1;
    }
    let e = find_from(s, lo, c);
    proof {
        lemma_find_char(s@.skip(lo as int), c);
        assert(s@.skip(lo as int).take(e - lo) == s@.subrange(lo as int, e as int));
    }
    Some((lo, e))
}

/// What follows `tag` in field `n` of a `;`-separated record.
fn tagged_field<'a>(s: &'a [char], n: usize, tag: &str) -> (r: Option<&'a [char]>)
    ensures
        r is Some <==> tagged(s@, n as nat, tag@) is Some,
        r is Some ==> r->0@ == tagged(s@, n as nat, tag@)->0,
{
    match field_bounds(s, ';', n) {
        Some((lo, hi)) => {
            let f = &s[lo..hi];
            if starts_with(f, tag) {
                let t = chars_of(tag).len();
                Some(&s[lo + t..hi])
            } else {
                None
            }
        },
        None => None,
    }
}

/// Decodes one record of a 433 MHz gateway; every field is required.
pub fn parse_rf_payload(payload: &str) -> (r: Option<RfPayload>)
    ensures
        match r {
            Some(p) => rf_payload_value(payload@) == Some(
                (
                    p.name@,
                    p.id as int,
                    p.channel as int,
                    p.battery,
                    p.temperature as int,
                    p.humidity as int,
                ),
            ),
            None => rf_payload_value(payload@) is None,
        },
{
    let v = chars_of(payload);
    let s = v.as_slice();
    let name = match field_bounds(s, ';', 2) {
        Some((lo, hi)) => string_of_range(s, lo, hi),
        None => {
            return None;
        },
    };
    let id = match tagged_field(s, 3, "ID=") {
        Some(t) => parse_unsigned(t, 10, 0xffff),
        None => {
            return None;
        },
    };
    let channel = match tagged_field(s, 4, "CHN=") {
        Some(t) => parse_unsigned(t, 10, 0xff),
        None => {
            return None;
        },
    };
    let battery = match tagged_field(s, 5, "BAT=") {
        Some(t) => same_text(t, "OK"),
        None => {
            return None;
        },
    };
    let temperature = match tagged_field(s, 6, "TEMP=") {
        Some(t) => parse_unsigned(t, 16, 0xffff_ffff),
        None => {
            return None;
        },
    };
    let humidity = match tagged_field(s, 7, "HUM=") {
        Some(t) => parse_unsigned(t, 10, 0xff),
        None => {
            return None;
        },
    };
    match (id, channel, temperature, humidity) {
        (Some(id), Some(channel), Some(t), Some(h)) => Some(
            RfPayload {
                name,
                id: id as u16,
                channel: channel as u8,
                battery,
                temperature: t as i64 * 100_000,
                humidity: h as u8,
            },
        ),
        _ => None,
    }
}

} // verus!
