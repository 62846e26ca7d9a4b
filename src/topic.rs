//! Classification of bus topics into the events the aggregator handles.

use vstd::prelude::*;
use crate::device::{Device, DsmrMessageType};
use crate::text::{
    chars_of, ends_with, find_char, find_from, has_prefix, has_suffix, lemma_find_char,
    same_text, starts_with, string_of_range,
};

verus! {

/// A classified topic, carrying the device it speaks of.
#[derive(Debug, PartialEq, Eq)]
pub enum Topic {
    Lwt(Device),
    Power(Device),
    State(Device),
    Sensor(Device),
    Result(Device),
    Other(String),
    Status(Device),
    Msg(Device),
    Water(Device),
    Gas(Device),
    Energy1(Device),
    Energy2(Device),
    DsmrPower(Device),
    Rtl(Device, String),
}

/// The variant of a `Topic`, without its data.
#[derive(Debug, Clone, Copy, PartialEq, Eq, Structural)]
pub enum TopicKind {
    Lwt,
    Power,
    State,
    Sensor,
    Result,
    Other,
    Status,
    Msg,
    Water,
    Gas,
    Energy1,
    Energy2,
    DsmrPower,
    Rtl,
}

/// The three leading `/`-separated segments of a topic, when it has at
/// least three.
pub open spec fn segments(raw: Seq<char>) -> Option<(Seq<char>, Seq<char>, Seq<char>)> {
    let i1 = find_char(raw, '/');
    if i1 >= raw.len() {
        None
    } else {
        let r1 = raw.skip(i1 + 1);
        let i2 = find_char(r1, '/');
        if i2 >= r1.len() {
            None
        } else {
            let r2 = r1.skip(i2 + 1);
            Some((raw.take(i1), r1.take(i2), r2.take(find_char(r2, '/'))))
        }
    }
}

/// The table of `<prefix>/<hostname>/<command>` topics.
pub open spec fn command_kind(prefix: Seq<char>, cmd: Seq<char>) -> TopicKind {
    if prefix == "tele"@ && cmd == "LWT"@ {
        TopicKind::Lwt
    } else if prefix == "tele"@ && cmd == "STATE"@ {
        TopicKind::State
    } else if prefix == "stat"@ && cmd == "POWER"@ {
        TopicKind::Power
    } else if prefix == "tele"@ && cmd == "SENSOR"@ {
        TopicKind::Sensor
    } else if prefix == "stat"@ && cmd == "RESULT"@ {
        TopicKind::Result
    } else if prefix == "stat"@ && (cmd == "STATUS"@ || cmd == "STATUS2"@) {
        TopicKind::Status
    } else {
        TopicKind::Other
    }
}

/// Device name and field of an `rtl_433/<device>/<field>` topic.
pub open spec fn rtl_parts(raw: Seq<char>) -> Option<(Seq<char>, Seq<char>)> {
    if has_prefix(raw, "rtl_433/"@) {
        let rest = raw.skip("rtl_433/"@.len() as int);
        let i = find_char(rest, '/');
        if i < rest.len() {
            Some((rest.take(i), rest.skip(i + 1)))
        } else {
            None
        }
    } else {
        None
    }
}

/// The smart-meter topic suffixes, in the order they are tried.
pub open spec fn dsmr_suffix(raw: Seq<char>) -> Option<(TopicKind, Seq<char>)> {
    if has_suffix(raw, "/water"@) {
        Some((TopicKind::Water, "/water"@))
    } else if has_suffix(raw, "/gas_delivered"@) {
        Some((TopicKind::Gas, "/gas_delivered"@))
    } else if has_suffix(raw, "/energy_delivered_tariff1"@) {
        Some((TopicKind::Energy1, "/energy_delivered_tariff1"@))
    } else if has_suffix(raw, "/energy_delivered_tariff2"@) {
        Some((TopicKind::Energy2, "/energy_delivered_tariff2"@))
    } else if has_suffix(raw, "/power_delivered_l1"@) {
        Some((TopicKind::DsmrPower, "/power_delivered_l1"@))
    } else {
        None
    }
}

/// The kind of event a topic carries; the first rule that matches wins.
pub open spec fn topic_kind(raw: Seq<char>) -> TopicKind {
    if has_suffix(raw, "/msg"@) {
        TopicKind::Msg
    } else if rtl_parts(raw) is Some {
        TopicKind::Rtl
    } else if let Some((kind, _suffix)) = dsmr_suffix(raw) {
        kind
    } else {
        match segments(raw) {
            Some((p, _h, c)) => command_kind(p, c),
            None => TopicKind::Other,
        }
    }
}

/// The device a topic speaks of; an unclassified topic is kept whole.
pub open spec fn topic_subject(raw: Seq<char>) -> Seq<char> {
    if has_suffix(raw, "/msg"@) {
        raw.take(raw.len() - "/msg"@.len())
    } else if let Some((device, _field)) = rtl_parts(raw) {
        device
    } else if let Some((_kind, suffix)) = dsmr_suffix(raw) {
        raw.take(raw.len() - suffix.len())
    } else {
        match segments(raw) {
            Some((p, h, c)) => if command_kind(p, c) != TopicKind::Other {
                h
            } else {
                raw
            },
            None => raw,
        }
    }
}

/// The field named by an `rtl_433` topic; empty for every other topic.
pub open spec fn topic_field(raw: Seq<char>) -> Seq<char> {
    match rtl_parts(raw) {
        Some((_device, field)) => if has_suffix(raw, "/msg"@) {
            seq![]
        } else {
            field
        },
        None => seq![],
    }
}

impl Topic {
    pub open spec fn kind(&self) -> TopicKind {
        match self {
            Topic::Lwt(_) => TopicKind::Lwt,
            Topic::Power(_) => TopicKind::Power,
            Topic::State(_) => TopicKind::State,
            Topic::Sensor(_) => TopicKind::Sensor,
            Topic::Result(_) => TopicKind::Result,
            Topic::Other(_) => TopicKind::Other,
            Topic::Status(_) => TopicKind::Status,
            Topic::Msg(_) => TopicKind::Msg,
            Topic::Water(_) => TopicKind::Water,
            Topic::Gas(_) => TopicKind::Gas,
            Topic::Energy1(_) => TopicKind::Energy1,
            Topic::Energy2(_) => TopicKind::Energy2,
            Topic::DsmrPower(_) => TopicKind::DsmrPower,
            Topic::Rtl(_, _) => TopicKind::Rtl,
        }
    }

    pub open spec fn subject(&self) -> Seq<char> {
        match self {
            Topic::Lwt(d) => d.hostname@,
            Topic::Power(d) => d.hostname@,
            Topic::State(d) => d.hostname@,
            Topic::Sensor(d) => d.hostname@,
            Topic::Result(d) => d.hostname@,
            Topic::Other(s) => s@,
            Topic::Status(d) => d.hostname@,
            Topic::Msg(d) => d.hostname@,
            Topic::Water(d) => d.hostname@,
            Topic::Gas(d) => d.hostname@,
            Topic::Energy1(d) => d.hostname@,
            Topic::Energy2(d) => d.hostname@,
            Topic::DsmrPower(d) => d.hostname@,
            Topic::Rtl(d, _) => d.hostname@,
        }
    }

    pub open spec fn field(&self) -> Seq<char> {
        match self {
            Topic::Rtl(_, f) => f@,
            _ => seq![],
        }
    }

    /// Classifies a raw topic.
    pub fn classify(raw: &str) -> (r: Topic)
        ensures
            r.kind() == topic_kind(raw@),
            r.subject() == topic_subject(raw@),
            r.field() == topic_field(raw@),
    {
        let v = chars_of(raw);
        let s = v.as_slice();
        if let Some(name) = strip_suffix(s, "/msg") {
            return Topic::Msg(Device { hostname: name });
        }
        if starts_with(s, "rtl_433/") {
            let lo = chars_of("rtl_433/").len();
            let i = find_from(s, lo, '/');
            proof {
                let rest = s@.skip(lo as int);
                lemma_find_char(rest, '/');
                assert(rest.take(i - lo) == s@.subrange(lo as int, i as int));
            }
            if i < s.len() {
                assert(s@.skip(lo as int).skip(i - lo + 1) == s@.subrange(i + 1, s@.len() as int));
                let device = Device { hostname: string_of_range(s, lo, i) };
                return Topic::Rtl(device, string_of_range(s, i + 1, s.len()));
            }
        }
        if let Some(name) = strip_suffix(s, "/water") {
            return Topic::Water(Device { hostname: name });
        }
        if let Some(name) = strip_suffix(s, "/gas_delivered") {
            return Topic::Gas(Device { hostname: name });
        }
        if let Some(name) = strip_suffix(s, "/energy_delivered_tariff1") {
            return Topic::Energy1(Device { hostname: name });
        }
        if let Some(name) = strip_suffix(s, "/energy_delivered_tariff2") {
            return Topic::Energy2(Device { hostname: name });
        }
        if let Some(name) = strip_suffix(s, "/power_delivered_l1") {
            return Topic::DsmrPower(Device { hostname: name });
        }
        let i1 = find_from(s, 0, '/');
        proof {
            assert(s@.skip(0) == s@);
            lemma_find_char(s@, '/');
        }
        if i1 < s.len() {
            let i2 = find_from(s, i1 + 1, '/');
            proof {
                lemma_find_char(s@.skip(i1 + 1), '/');
            }
            if i2 < s.len() {
                let i3 = find_from(s, i2 + 1, '/');
                proof {
                    let r1 = s@.skip(i1 + 1);
                    let r2 = r1.skip(i2 - i1);
                    lemma_find_char(s@.skip(i2 + 1), '/');
                    assert(r2 == s@.skip(i2 + 1));
                    assert(s@.take(i1 as int) == s@.subrange(0, i1 as int));
                    assert(r1.take(i2 - i1 - 1) == s@.subrange(i1 + 1, i2 as int));
                    assert(r2.take(i3 - i2 - 1) == s@.subrange(i2 + 1, i3 as int));
                }
                let prefix = &s[0..i1];
                let cmd = &s[i2 + 1..i3];
                let host = string_of_range(s, i1 + 1, i2);
                let tele = same_text(prefix, "tele");
                let stat = same_text(prefix, "stat");
                if tele && same_text(cmd, "LWT") {
                    return Topic::Lwt(Device { hostname: host });
                } else if tele && same_text(cmd, "STATE") {
                    return Topic::State(Device { hostname: host });
                } else if stat && same_text(cmd, "POWER") {
                    return Topic::Power(Device { hostname: host });
                } else if tele && same_text(cmd, "SENSOR") {
                    return Topic::Sensor(Device { hostname: host });
                } else if stat && same_text(cmd, "RESULT") {
                    return Topic::Result(Device { hostname: host });
                } else if stat && (same_text(cmd, "STATUS") || same_text(cmd, "STATUS2")) {
                    return Topic::Status(Device { hostname: host });
                }
            }
        }
        Topic::Other(string_of_range(s, 0, s.len()))
    }

    /// The smart-meter reading a topic carries, if any.
    pub fn dsmr_type(&self) -> (r: Option<DsmrMessageType>)
        ensures
            r == match self.kind() {
                TopicKind::Water => Some(DsmrMessageType::Water),
                TopicKind::Gas => Some(DsmrMessageType::Gas),
                TopicKind::Energy1 => Some(DsmrMessageType::Energy1),
                TopicKind::Energy2 => Some(DsmrMessageType::Energy2),
                TopicKind::DsmrPower => Some(DsmrMessageType::Power),
                _ => None,
            },
    {
        match self {
            Topic::Water(_) => Some(DsmrMessageType::Water),
            Topic::Gas(_) => Some(DsmrMessageType::Gas),
            Topic::Energy1(_) => Some(DsmrMessageType::Energy1),
            Topic::Energy2(_) => Some(DsmrMessageType::Energy2),
            Topic::DsmrPower(_) => Some(DsmrMessageType::Power),
            _ => None,
        }
    }

    /// The device a topic speaks of; an unclassified topic names itself.
    pub fn into_device(self) -> (r: Device)
        ensures
            r.hostname@ == self.subject(),
    {
        match self {
            Topic::Lwt(device) => device,
            Topic::Power(device) => device,
            Topic::State(device) => device,
            Topic::Sensor(device) => device,
            Topic::Result(device) => device,
            Topic::Other(device) => Device { hostname: device },
            Topic::Status(device) => device,
            Topic::Msg(device) => device,
            Topic::Water(device) => device,
            Topic::Gas(device) => device,
            Topic::Energy1(device) => device,
            Topic::Energy2(device) => device,
            Topic::DsmrPower(device) => device,
            Topic::Rtl(device, _) => device,
        }
    }
}

impl<'a> From<&'a str> for Topic {
    fn from(raw: &'a str) -> Topic {
        Topic::classify(raw)
    }
}

impl<'a> vstd::std_specs::convert::FromSpecImpl<&'a str> for Topic {
    open spec fn obeys_from_spec() -> bool {
        false
    }

    open spec fn from_spec(v: &'a str) -> Topic {
        vstd::pervasive::arbitrary()
    }
}

/// `s` without the suffix `p`, when it ends with it.
fn strip_suffix(s: &[char], p: &str) -> (r: Option<String>)
    ensures
        r is Some <==> has_suffix(s@, p@),
        r is Some ==> r->0@ == s@.take(s@.len() - p@.len()),
{
    if ends_with(s, p) {
        let n = chars_of(p).len();
        Some(string_of_range(s, 0, s.len() - n))
    } else {
        None
    }
}

} // verus!
