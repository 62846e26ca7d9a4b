//! Settings: the broker to connect to and the names given to sensors.

use vstd::prelude::*;
use crate::ident::{field_at, mac_from_part, rf_id_value, BDAddr, RfDeviceId};
use crate::table::TableKey;
use crate::text::{chars_of, find_char, find_from, lemma_find_char, string_of_range};

verus! {

/// Display names of the Bluetooth and 433 MHz sensors; a sensor without a
/// name is not rendered.
pub struct NamesConfig {
    pub mi_temp: Vec<(BDAddr, String)>,
    pub rf_temp: Vec<(RfDeviceId, String)>,
}

/// Credentials for the message broker: a password given as is, or the
/// path of a file that holds it.
pub enum Credentials {
    Raw { username: String, password: String },
    File { username: String, password_file: String },
}

impl Credentials {
    /// The user name, whichever way the password is given.
    pub fn username(&self) -> (r: String)
        ensures
            r@ == match self {
                Credentials::Raw { username, .. } => username@,
                Credentials::File { username, .. } => username@,
            },
    {
        match self {
            Credentials::Raw { username, .. } => username.clone(),
            Credentials::File { username, .. } => username.clone(),
        }
    }
}

/// Where the message broker is and how to log in.
pub struct MqttConfig {
    pub host: String,
    pub port: u16,
    pub credentials: Option<Credentials>,
}

/// The broker port used when none is configured.
pub fn default_mqtt_port() -> (r: u16)
    ensures
        r == 1883,
{
    1883
}


/// Why a list of sensor names could not be read.
#[derive(Debug, Clone, Copy, PartialEq, Eq, Structural)]
pub enum NamesError {
    InvalidMiTempNames,
    InvalidRfTempNames,
}

/// An item `<key>=<name>` of a names list; text after a second `=` is
/// ignored.
pub open spec fn name_pair(p: Seq<char>) -> Option<(Seq<char>, Seq<char>)> {
    let i = find_char(p, '=');
    if i < p.len() {
        let rest = p.skip(i + 1);
        Some((p.take(i), rest.take(find_char(rest, '='))))
    } else {
        None
    }
}

/// Whether `n` is the number of items of a `,`-separated list.
pub open spec fn item_count(s: Seq<char>, n: nat) -> bool {
    (forall|j: nat| j < n ==> #[trigger] field_at(s, ',', j) is Some) && field_at(s, ',', n) is None
}

/// The Bluetooth sensor named by a list item.
pub open spec fn mi_temp_item(p: Seq<char>) -> Option<(Seq<u8>, Seq<char>)> {
    match name_pair(p) {
        Some((k, name)) => match mac_from_part(k) {
            Ok(a) => Some((a, name)),
            Err(_) => None,
        },
        None => None,
    }
}

/// The 433 MHz sensor named by a list item.
pub open spec fn rf_temp_item(p: Seq<char>) -> Option<((Seq<char>, u16, u8), Seq<char>)> {
    match name_pair(p) {
        Some((k, name)) => match rf_id_value(k) {
            Some((model, id, channel)) => Some(((model, id as u16, channel as u8), name)),
            None => None,
        },
        None => None,
    }
}

proof fn lemma_field_step(s: Seq<char>, c: char, t: nat)
    requires
        find_char(s, c) < s.len(),
    ensures
        field_at(s, c, t + 1) == field_at(s.skip(find_char(s, c) + 1), c, t),
{
}

/// Bounds of the items of a `,`-separated list.
fn item_bounds(s: &[char]) -> (r: Vec<(usize, usize)>)
    ensures
        item_count(s@, r@.len()),
        forall|j: int|
            0 <= j < r@.len() ==> {
                let (lo, hi) = #[trigger] r@[j];
                lo <= hi <= s.len() && field_at(s@, ',', j as nat) == Some(
                    s@.subrange(lo as int, hi as int),
                )
            },
{
    let mut r: Vec<(usize, usize)> = Vec::new();
    let mut lo: usize = 0;
    assert(s@.skip(0) == s@);
    loop
        invariant
            lo <= s.len(),
            forall|t: nat|
                #[trigger] field_at(s@.skip(lo as int), ',', t) == field_at(
                    s@,
                    ',',
                    (r@.len() + t) as nat,
                ),
            forall|j: int|
                0 <= j < r@.len() ==> {
                    let (a, b) = #[trigger] r@[j];
                    a <= b <= s.len() && field_at(s@, ',', j as nat) == Some(
                        s@.subrange(a as int, b as int),
                    )
                },
        decreases s.len() - lo,
    {
        let e = find_from(s, lo, ',');
        let ghost t0 = s@.skip(lo as int);
        proof {
            lemma_find_char(t0, ',');
            assert(t0.take(e - lo) == s@.subrange(lo as int, e as int));
            assert(field_at(t0, ',', 0) == Some(t0.take(e - lo)));
            assert(field_at(s@, ',', r@.len() as nat) == field_at(t0, ',', 0));
        }
        r.push((lo, e));
        if e >= s.len() {
            proof {
                assert(field_at(t0, ',', 1) is None);
                assert(field_at(s@, ',', (r@.len() - 1 + 1) as nat) == field_at(t0, ',', 1));
                assert forall|j: nat| j < r@.len() implies #[trigger] field_at(s@, ',', j) is Some by {
                    let (a, b) = r@[j as int];
                }
            }
            return r;
        }
        proof {
            let t1 = s@.skip(e + 1);
            assert(t0.skip(e - lo + 1) == t1);
            assert forall|t: nat| #[trigger] field_at(t1, ',', t) == field_at(
                s@,
                ',',
                (r@.len() + t) as nat,
            ) by {
                lemma_field_step(t0, ',', t);
                assert(field_at(t0, ',', t + 1) == field_at(s@, ',', (r@.len() - 1 + (t + 1)) as nat));
            }
        }
        lo = e + 1;
    }
}

/// Reads a list `<key>=<name>,...` of Bluetooth sensor names, keyed by
/// address suffix; one bad item fails the whole list.
pub fn parse_mi_temp_names(text: &str) -> (r: Result<Vec<(BDAddr, String)>, NamesError>)
    ensures
        match r {
            Ok(v) => item_count(text@, v@.len()) && forall|j: int|
                0 <= j < v@.len() ==> #[trigger] mi_temp_item(field_at(text@, ',', j as nat)->0)
                    == Some((v@[j].0.address@, v@[j].1@)),
            Err(e) => e == NamesError::InvalidMiTempNames && exists|j: nat|
                #[trigger] field_at(text@, ',', j) is Some && mi_temp_item(
                    field_at(text@, ',', j)->0,
                ) is None,
        },
{
    let c = chars_of(text);
    let s = c.as_slice();
    let items = item_bounds(s);
    let mut v: Vec<(BDAddr, String)> = Vec::new();
    let mut k: usize = 0;
    while k < items.len()
        invariant
            k <= items@.len(),
            v@.len() == k,
            item_count(s@, items@.len()),
            s@ == text@,
            forall|j: int|
                0 <= j < items@.len() ==> {
                    let (lo, hi) = #[trigger] items@[j];
                    lo <= hi <= s.len() && field_at(s@, ',', j as nat) == Some(
                        s@.subrange(lo as int, hi as int),
                    )
                },
            forall|j: int|
                0 <= j < k ==> #[trigger] mi_temp_item(field_at(text@, ',', j as nat)->0) == Some(
                    (v@[j].0.address@, v@[j].1@),
                ),
        decreases items@.len() - k,
    {
        let (lo, hi) = items[k];
        let ghost item = s@.subrange(lo as int, hi as int);
        assert(field_at(s@, ',', k as nat) == Some(item));
        match parse_pair(s, lo, hi) {
            Some((klo, khi, nlo, nhi)) => {
                let key = string_of_range(s, klo, khi);
                match BDAddr::from_mi_temp_mac_part(key.as_str()) {
                    Ok(a) => {
                        let name = string_of_range(s, nlo, nhi);
                        v.push((a, name));
                    },
                    Err(_) => {
                        return Err(NamesError::InvalidMiTempNames);
                    },
                }
            },
            None => {
                return Err(NamesError::InvalidMiTempNames);
            },
        }
        k = k + 1;
    }
    Ok(v)
}

/// Reads a list `<model>:<id>:<channel>=<name>,...` of 433 MHz sensor
/// names; one bad item fails the whole list.
pub fn parse_rf_temp_names(text: &str) -> (r: Result<Vec<(RfDeviceId, String)>, NamesError>)
    ensures
        match r {
            Ok(v) => item_count(text@, v@.len()) && forall|j: int|
                0 <= j < v@.len() ==> #[trigger] rf_temp_item(field_at(text@, ',', j as nat)->0)
                    == Some((v@[j].0.key_view(), v@[j].1@)),
            Err(e) => e == NamesError::InvalidRfTempNames && exists|j: nat|
                #[trigger] field_at(text@, ',', j) is Some && rf_temp_item(
                    field_at(text@, ',', j)->0,
                ) is None,
        },
{
    let c = chars_of(text);
    let s = c.as_slice();
    let items = item_bounds(s);
    let mut v: Vec<(RfDeviceId, String)> = Vec::new();
    let mut k: usize = 0;
    while k < items.len()
        invariant
            k <= items@.len(),
            v@.len() == k,
            item_count(s@, items@.len()),
            s@ == text@,
            forall|j: int|
                0 <= j < items@.len() ==> {
                    let (lo, hi) = #[trigger] items@[j];
                    lo <= hi <= s.len() && field_at(s@, ',', j as nat) == Some(
                        s@.subrange(lo as int, hi as int),
                    )
                },
            forall|j: int|
                0 <= j < k ==> #[trigger] rf_temp_item(field_at(text@, ',', j as nat)->0) == Some(
                    (v@[j].0.key_view(), v@[j].1@),
                ),
        decreases items@.len() - k,
    {
        let (lo, hi) = items[k];
        let ghost item = s@.subrange(lo as int, hi as int);
        assert(field_at(s@, ',', k as nat) == Some(item));
        match parse_pair(s, lo, hi) {
            Some((klo, khi, nlo, nhi)) => {
                let key = string_of_range(s, klo, khi);
                match RfDeviceId::parse(key.as_str()) {
                    Ok(d) => {
                        let name = string_of_range(s, nlo, nhi);
                        v.push((d, name));
                    },
                    Err(_) => {
                        return Err(NamesError::InvalidRfTempNames);
                    },
                }
            },
            None => {
                return Err(NamesError::InvalidRfTempNames);
            },
        }
        k = k + 1;
    }
    Ok(v)
}

/// Bounds of the key and the name of the item `s[lo..hi]`.
fn parse_pair(s: &[char], lo: usize, hi: usize) -> (r: Option<(usize, usize, usize, usize)>)
    requires
        lo <= hi <= s.len(),
    ensures
        match r {
            Some((klo, khi, nlo, nhi)) => klo <= khi <= s.len() && nlo <= nhi <= s.len()
                && name_pair(s@.subrange(lo as int, hi as int)) == Some(
                (s@.subrange(klo as int, khi as int), s@.subrange(nlo as int, nhi as int)),
            ),
            None => name_pair(s@.subrange(lo as int, hi as int)) is None,
        },
{
    let ghost p = s@.subrange(lo as int, hi as int);
    let mut i: usize = lo;
    while i < hi && s[i] != '='
        invariant
            lo <= i <= hi <= s.len(),
            forall|j: int| lo <= j < i ==> s@[j] != '=',
        decreases hi - i,
    {
        i = i + 1;
    }
    proof {
        lemma_find_char(p, '=');
        let f = find_char(p, '=');
        if f < i - lo {
            assert(p[f] == s@[lo + f]);
        } else if f > i - lo {
            assert(p[i - lo] == s@[i as int]);
        }
    }
    if i >= hi {
        return None;
    }
    let mut k: usize = i + 1;
    while k < hi && s[k] != '='
        invariant
            i + 1 <= k <= hi <= s.len(),
            forall|j: int| i + 1 <= j < k ==> s@[j] != '=',
        decreases hi - k,
    {
        k = k + 1;
    }
    proof {
        let rest = p.skip(i - lo + 1);
        lemma_find_char(rest, '=');
        let f = find_char(rest, '=');
        if f < k - i - 1 {
            assert(rest[f] == s@[i + 1 + f]);
        } else if f > k - i - 1 {
            assert(rest[k - i - 1] == s@[k as int]);
        }
        assert(p.take(i - lo) == s@.subrange(lo as int, i as int));
        assert(rest.take(k - i - 1) == s@.subrange(i + 1, k as int));
    }
    Some((lo, i, i + 1, k))
}

} // verus!
