//! What the ingest loop does with each message from the bus, and the
//! commands it sends back to devices.

use vstd::prelude::*;
use crate::device::{Device, DsmrMessageType};
use crate::json::{parse_payload, parsed_json, Json};
use crate::registry::{
    updated_by_dsmr, updated_by_rf, updated_by_rtl, updated_by_telemetry, DeviceStates,
};
use crate::topic::{Topic, TopicKind};

verus! {

/// A message to publish: topic and body.
pub struct Command {
    pub topic: String,
    pub body: String,
}

/// The command topic `cmnd/<host>/<command>`.
pub open spec fn command_topic(host: Seq<char>, command: Seq<char>) -> Seq<char> {
    "cmnd"@ + seq!['/'] + host + seq!['/'] + command
}

/// What a newly seen switch is asked: its power state, its name and its
/// firmware.
pub open spec fn discovery_commands(host: Seq<char>) -> Seq<(Seq<char>, Seq<char>)> {
    seq![
        (command_topic(host, "POWER"@), Seq::empty()),
        (command_topic(host, "DeviceName"@), Seq::empty()),
        (command_topic(host, "Status"@), "2"@),
    ]
}

/// Topics and bodies of a list of commands.
pub open spec fn command_pairs(cs: Seq<Command>) -> Seq<(Seq<char>, Seq<char>)> {
    cs.map_values(|c: Command| c.pair())
}

impl Command {
    pub open spec fn pair(&self) -> (Seq<char>, Seq<char>) {
        (self.topic@, self.body@)
    }

    /// The command `<command>` with `body` for `device`.
    pub fn to_device(device: &Device, command: &str, body: &str) -> (r: Command)
        ensures
            r.pair() == (command_topic(device.hostname@, command@), body@),
    {
        Command { topic: device.get_topic("cmnd", command), body: String::from_str(body) }
    }

    /// The probe that asks a switch for its name.
    pub fn probe(device: &Device) -> (r: Command)
        ensures
            r.pair() == (command_topic(device.hostname@, "DeviceName"@), Seq::<char>::empty()),
    {
        proof {
            reveal_strlit("");
            assert(""@ =~= Seq::<char>::empty());
        }
        Command::to_device(device, "DeviceName", "")
    }
}

/// The commands that ask a newly seen switch for its state.
pub fn discovery(device: &Device) -> (r: Vec<Command>)
    ensures
        command_pairs(r@) == discovery_commands(device.hostname@),
{
    proof {
        reveal_strlit("");
        assert(""@ =~= Seq::<char>::empty());
    }
    let mut r = Vec::new();
    r.push(Command::to_device(device, "POWER", ""));
    r.push(Command::to_device(device, "DeviceName", ""));
    r.push(Command::to_device(device, "Status", "2"));
    assert(command_pairs(r@) =~= discovery_commands(device.hostname@));
    r
}

pub open spec fn unchanged(old: DeviceStates, new: DeviceStates) -> bool {
    &&& new.tasmota() == old.tasmota()
    &&& new.dsmr() == old.dsmr()
    &&& new.ble() == old.ble()
    &&& new.rf() == old.rf()
    &&& new.active_rf_temp_id == old.active_rf_temp_id
}

/// What handling one message does: the registry change and the commands
/// it gives, for the payload read as `json` where it is JSON.
pub open spec fn handled(
    old: DeviceStates,
    new: DeviceStates,
    topic: Topic,
    payload: Seq<char>,
    json: Option<Json>,
    now: u64,
    commands: Seq<(Seq<char>, Seq<char>)>,
) -> bool {
    &&& topic.kind() == TopicKind::Lwt ==> commands == discovery_commands(topic.subject())
    &&& topic.kind() != TopicKind::Lwt ==> commands.len() == 0
    &&& match topic.kind() {
        TopicKind::Sensor | TopicKind::Result | TopicKind::Status => match json {
            Some(j) => updated_by_telemetry(old, new, topic.subject(), j, now),
            None => unchanged(old, new),
        },
        TopicKind::Msg => updated_by_rf(old, new, payload),
        TopicKind::Rtl => updated_by_rtl(
            old,
            new,
            topic.subject(),
            topic.field(),
            payload,
        ),
        TopicKind::Water => updated_by_dsmr(
            old,
            new,
            topic.subject(),
            DsmrMessageType::Water,
            payload,
            now,
        ),
        TopicKind::Gas => updated_by_dsmr(
            old,
            new,
            topic.subject(),
            DsmrMessageType::Gas,
            payload,
            now,
        ),
        TopicKind::Energy1 => updated_by_dsmr(
            old,
            new,
            topic.subject(),
            DsmrMessageType::Energy1,
            payload,
            now,
        ),
        TopicKind::Energy2 => updated_by_dsmr(
            old,
            new,
            topic.subject(),
            DsmrMessageType::Energy2,
            payload,
            now,
        ),
        TopicKind::DsmrPower => updated_by_dsmr(
            old,
            new,
            topic.subject(),
            DsmrMessageType::Power,
            payload,
            now,
        ),
        _ => unchanged(old, new),
    }
}

impl DeviceStates {
    /// Handles one message from the bus at `now`: updates the registry
    /// and gives the commands to publish. `json` is the payload parsed as
    /// JSON, when it parsed; it is read for switch telemetry only.
    pub fn handle(&mut self, topic: Topic, payload: &str, json: Option<&Json>, now: u64) -> (r: Vec<
        Command,
    >)
        requires
            old(self).wf(),
        ensures
            final(self).wf(),
            handled(
                *old(self),
                *final(self),
                topic,
                payload@,
                match json {
                    Some(j) => Some(*j),
                    None => None,
                },
                now,
                command_pairs(r@),
            ),
    {
        match topic {
            Topic::Lwt(device) => discovery(&device),
            Topic::Result(device) | Topic::Sensor(device) | Topic::Status(device) => {
                if let Some(j) = json {
                    self.update(device, j, now);
                }
                Vec::new()
            },
            Topic::Msg(_) => {
                self.update_rf(payload);
                Vec::new()
            },
            Topic::Rtl(device, field) => {
                self.update_rtl(device.hostname.as_str(), field.as_str(), payload);
                Vec::new()
            },
            topic @ (Topic::Water(_) | Topic::Gas(_) | Topic::Energy1(_) | Topic::Energy2(_)
            | Topic::DsmrPower(_)) => {
                if let Some(ty) = topic.dsmr_type() {
                    self.update_dsmr(topic.into_device(), ty, payload, now);
                }
                Vec::new()
            },
            _ => Vec::new(),
        }
    }
}


impl DeviceStates {
    /// Handles one message from the bus at `now`, reading the payload of
    /// switch telemetry as JSON; a telemetry payload that is no JSON
    /// changes nothing.
    pub fn ingest(&mut self, topic: Topic, payload: &str, now: u64) -> (r: Vec<Command>)
        requires
            old(self).wf(),
        ensures
            final(self).wf(),
            handled(
                *old(self),
                *final(self),
                topic,
                payload@,
                match topic.kind() {
                    TopicKind::Sensor | TopicKind::Result | TopicKind::Status => parsed_json(
                        payload@,
                    ),
                    _ => None,
                },
                now,
                command_pairs(r@),
            ),
    {
        let json = match topic {
            Topic::Result(_) | Topic::Sensor(_) | Topic::Status(_) => parse_payload(payload),
            _ => None,
        };
        let r = self.handle(topic, payload, json.as_ref(), now);
        r
    }
}

} // verus!
