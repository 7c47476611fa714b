//! The models shipped with the kernel: a sun sensor, the dynamics model it
//! queries, an on-board computer that triggers it periodically, and a
//! recorder used as an observable sink.
//!
//! Each model's behaviour is a pure transition: a handler takes the current
//! state, an input and the virtual time, and returns the new state together
//! with the effects (broadcasts, requests, self-schedules) the kernel must
//! apply.  The spec functions below state those transitions exactly; the
//! executable handlers are proved to implement them.

use vstd::prelude::*;

use crate::event::Effect;
use crate::msg::{Msg, SampleCommand, SampleReply};

verus! {

/// The sensor powers on at and above this voltage.
pub const POWER_ON_MILLIVOLTS: i64 = 5000;

pub const NANOS_PER_SEC: u64 = 1000000000;

// Port numbers, one namespace per model.
pub const SENSOR_PORT_VOLTAGE: u32 = 0;

pub const SENSOR_PORT_TC: u32 = 1;

pub const SENSOR_OUT_TM: u32 = 0;

pub const SENSOR_OUT_POWER: u32 = 1;

pub const SENSOR_REQ_SUN: u32 = 0;

pub const SENSOR_CONT_SUN: u32 = 0;

pub const OBC_PORT_SEND: u32 = 0;

pub const OBC_OUT_TM: u32 = 0;

pub const RECORDER_PORT_IN: u32 = 0;

/// Signed saturating addition, stated over unbounded integers.
pub open spec fn sat_add_spec(a: int, b: int) -> int {
    if a + b > i64::MAX {
        i64::MAX as int
    } else if a + b < i64::MIN {
        i64::MIN as int
    } else {
        a + b
    }
}

/// Adds with saturation at the `i64` range.
pub fn sat_add(a: i64, b: i64) -> (r: i64)
    ensures
        r as int == sat_add_spec(a as int, b as int),
{
    if b >= 0 {
        if a <= i64::MAX - b {
            a + b
        } else {
            i64::MAX
        }
    } else {
        if a >= i64::MIN - b {
            a + b
        } else {
            i64::MIN
        }
    }
}

/// The continuation state of a suspended telecommand: either the sensor is
/// idle, or it awaits the dynamics reply and remembers whom to answer.
#[derive(Clone, Copy, PartialEq, Eq, Structural, Debug)]
pub enum Pending {
    Idle,
    Awaiting(u8),
}

/// A sun sensor: reports a sun sample on request, but only while powered.
///
/// `pending` is the explicit continuation state of the suspended `tc`
/// handler.  `noise` is the build-time environment: a fixed measurement
/// offset kept out of the wiring.
#[derive(Clone, Copy, PartialEq, Eq, Structural, Debug)]
pub struct SunSensor {
    pub voltage: i64,
    pub address: u8,
    pub noise: i64,
    pub pending: Pending,
}

/// The sensor is powered at and above the power-on voltage.
pub open spec fn sensor_powered(s: SunSensor) -> bool {
    s.voltage >= POWER_ON_MILLIVOLTS
}

/// Feeding a voltage: the reading is stored; a power transition (and only a
/// transition) is announced on the power output.
pub open spec fn sensor_voltage_step(s: SunSensor, millivolts: i64) -> (SunSensor, Seq<Effect>) {
    let s2 = SunSensor { voltage: millivolts, ..s };
    if !sensor_powered(s) && sensor_powered(s2) {
        (s2, seq![Effect::Emit { port: SENSOR_OUT_POWER, value: Msg::Level(1) }])
    } else if sensor_powered(s) && !sensor_powered(s2) {
        (s2, seq![Effect::Emit { port: SENSOR_OUT_POWER, value: Msg::Level(0) }])
    } else {
        (s2, Seq::empty())
    }
}

/// A telecommand: ignored unless the sensor is powered, addressed and idle;
/// otherwise the sensor suspends, asking the dynamics model for the sun
/// position and remembering whom to answer.
pub open spec fn sensor_tc_step(s: SunSensor, cmd: SampleCommand) -> (SunSensor, Seq<Effect>) {
    if !sensor_powered(s) || s.address != cmd.dest_address || !(s.pending is Idle) {
        (s, Seq::empty())
    } else {
        (
            SunSensor { pending: Pending::Awaiting(cmd.src_address), ..s },
            seq![Effect::Request { port: SENSOR_REQ_SUN, value: Msg::Unit, cont: SENSOR_CONT_SUN }],
        )
    }
}

/// Resuming after the sun-position reply: the sample (with the environment's
/// fixed noise offset added, saturating) goes out as telemetry and the
/// pending telecommand is retired.  Anything unexpected is dropped.
pub open spec fn sensor_reply_step(s: SunSensor, cont: u32, value: Msg) -> (SunSensor, Seq<Effect>) {
    match (s.pending, value) {
        (Pending::Awaiting(reply_to), Msg::Position(x, y, z)) => {
            if cont == SENSOR_CONT_SUN {
                let reply = SampleReply {
                    src_address: s.address,
                    dest_address: reply_to,
                    polar_angle: sat_add_spec(z as int, s.noise as int) as i64,
                    azimuthal_angle: y,
                };
                (
                    SunSensor { pending: Pending::Idle, ..s },
                    seq![Effect::Emit { port: SENSOR_OUT_TM, value: Msg::Sample(reply) }],
                )
            } else {
                (s, Seq::empty())
            }
        },
        _ => (s, Seq::empty()),
    }
}

impl SunSensor {
    /// A fresh sensor: unpowered, idle, no noise.
    pub fn new(address: u8) -> (s: Self)
        ensures
            s == (SunSensor { voltage: 0, address, noise: 0, pending: Pending::Idle }),
    {
        SunSensor { voltage: 0, address, noise: 0, pending: Pending::Idle }
    }

    /// The voltage-input event handler.
    pub fn voltage_in(&mut self, millivolts: i64) -> (effs: Vec<Effect>)
        ensures
            *final(self) == sensor_voltage_step(*old(self), millivolts).0,
            effs@ == sensor_voltage_step(*old(self), millivolts).1,
    {
        let was_powered = self.voltage >= POWER_ON_MILLIVOLTS;
        self.voltage = millivolts;
        let now_powered = self.voltage >= POWER_ON_MILLIVOLTS;
        let mut effs: Vec<Effect> = Vec::new();
        if !was_powered && now_powered {
            effs.push(Effect::Emit { port: SENSOR_OUT_POWER, value: Msg::Level(1) });
        } else if was_powered && !now_powered {
            effs.push(Effect::Emit { port: SENSOR_OUT_POWER, value: Msg::Level(0) });
        }
        effs
    }

    /// The telecommand event handler.
    pub fn tc(&mut self, cmd: SampleCommand) -> (effs: Vec<Effect>)
        ensures
            *final(self) == sensor_tc_step(*old(self), cmd).0,
            effs@ == sensor_tc_step(*old(self), cmd).1,
    {
        let mut effs: Vec<Effect> = Vec::new();
        if self.voltage >= POWER_ON_MILLIVOLTS && self.address == cmd.dest_address
            && matches!(self.pending, Pending::Idle) {
            self.pending = Pending::Awaiting(cmd.src_address);
            effs.push(
                Effect::Request { port: SENSOR_REQ_SUN, value: Msg::Unit, cont: SENSOR_CONT_SUN },
            );
        }
        effs
    }

    /// The reply handler resuming a suspended telecommand.
    pub fn on_sun_position(&mut self, cont: u32, value: Msg) -> (effs: Vec<Effect>)
        ensures
            *final(self) == sensor_reply_step(*old(self), cont, value).0,
            effs@ == sensor_reply_step(*old(self), cont, value).1,
    {
        let mut effs: Vec<Effect> = Vec::new();
        match (self.pending, value) {
            (Pending::Awaiting(reply_to), Msg::Position(x, y, z)) => {
                if cont == SENSOR_CONT_SUN {
                    let reply = SampleReply {
                        src_address: self.address,
                        dest_address: reply_to,
                        polar_angle: sat_add(z, self.noise),
                        azimuthal_angle: y,
                    };
                    self.pending = Pending::Idle;
                    effs.push(Effect::Emit { port: SENSOR_OUT_TM, value: Msg::Sample(reply) });
                }
            },
            _ => {},
        }
        effs
    }
}

/// The external wiring of a sensor, fixed before registration; building it
/// supplies the runtime-only environment (here, the noise offset) and yields
/// the live model.
#[derive(Clone, Copy, PartialEq, Eq, Structural, Debug)]
pub struct ProtoSunSensor {
    pub address: u8,
}

impl ProtoSunSensor {
    pub fn new(address: u8) -> (p: Self)
        ensures
            p == (ProtoSunSensor { address }),
    {
        ProtoSunSensor { address }
    }

    /// Builds the live sensor from the prototype and its environment.
    pub fn build(self, noise: i64) -> (s: SunSensor)
        ensures
            s == (SunSensor { voltage: 0, address: self.address, noise, pending: Pending::Idle }),
    {
        SunSensor { voltage: 0, address: self.address, noise, pending: Pending::Idle }
    }
}

/// The sun position the dynamics model reports at virtual time `now`:
/// movement along an arbitrary straight line in whole seconds.
pub open spec fn sun_position_spec(now: u64) -> Msg {
    let s = now as int / NANOS_PER_SEC as int;
    Msg::Position((2 + 5 * s) as i64, s as i64, (3 * s) as i64)
}

/// The dynamics model: answers sun-position queries from the virtual clock.
#[derive(Clone, Copy, PartialEq, Eq, Structural, Debug)]
pub struct Dynamics;

impl Dynamics {
    /// The sun-position query handler.
    pub fn sun_position(&self, now: u64) -> (r: Msg)
        ensures
            r == sun_position_spec(now),
    {
        let secs = now / NANOS_PER_SEC;
        proof {
            vstd::arithmetic::div_mod::lemma_div_is_ordered(
                now as int,
                u64::MAX as int,
                NANOS_PER_SEC as int,
            );
        }
        let s = secs as i64;
        Msg::Position(2 + 5 * s, s, 3 * s)
    }
}

/// The on-board computer: self-fires every second from one second after the
/// clock start, broadcasting a sampling telecommand each time.
#[derive(Clone, Copy, PartialEq, Eq, Structural, Debug)]
pub struct Obc {
    pub address: u8,
    pub sensor_address: u8,
}

/// What the OBC broadcasts on each firing.
pub open spec fn obc_command(o: Obc) -> SampleCommand {
    SampleCommand { src_address: o.address, dest_address: o.sensor_address }
}

impl Obc {
    pub fn new(address: u8, sensor_address: u8) -> (o: Self)
        ensures
            o == (Obc { address, sensor_address }),
    {
        Obc { address, sensor_address }
    }

    /// The schedulable firing: broadcast one sampling telecommand.
    pub fn send_sample_command(&self) -> (effs: Vec<Effect>)
        ensures
            effs@ == seq![
                Effect::Emit { port: OBC_OUT_TM, value: Msg::Command(obc_command(*self)) },
            ],
    {
        let mut effs: Vec<Effect> = Vec::new();
        effs.push(
            Effect::Emit {
                port: OBC_OUT_TM,
                value: Msg::Command(
                    SampleCommand {
                        src_address: self.address,
                        dest_address: self.sensor_address,
                    },
                ),
            },
        );
        effs
    }

    /// The init hook: schedule the periodic firing, one second in, every
    /// second.
    pub fn init(&self) -> (effs: Vec<Effect>)
        ensures
            effs@ == seq![
                Effect::Schedule {
                    delay: NANOS_PER_SEC,
                    port: OBC_PORT_SEND,
                    value: Msg::Unit,
                    period: NANOS_PER_SEC,
                },
            ],
    {
        let mut effs: Vec<Effect> = Vec::new();
        effs.push(
            Effect::Schedule {
                delay: NANOS_PER_SEC,
                port: OBC_PORT_SEND,
                value: Msg::Unit,
                period: NANOS_PER_SEC,
            },
        );
        effs
    }
}

/// The digit under which a recorder logs a message.
pub open spec fn msg_digit(value: Msg) -> i64 {
    match value {
        Msg::Unit => 0,
        Msg::Command(_) => 1,
        Msg::Sample(_) => 2,
        Msg::Volt(_) => 3,
        Msg::Position(_, _, _) => 4,
        Msg::Level(v) => if 0 <= v && v <= 9 {
            v
        } else {
            9
        },
    }
}

/// Appending a digit to a decimal log, stopping when the log is full.
pub open spec fn record_spec(log: i64, digit: i64) -> i64 {
    if 0 <= log && log <= (i64::MAX - 9) / 10 {
        (log * 10 + digit) as i64
    } else {
        log
    }
}

/// A recorder: an order-sensitive observable sink.  Every delivered message
/// appends one decimal digit to `log`, so the log reads as the exact arrival
/// order; a query returns the log.
#[derive(Clone, Copy, PartialEq, Eq, Structural, Debug)]
pub struct Recorder {
    pub log: i64,
}

impl Recorder {
    pub fn new() -> (r: Self)
        ensures
            r == (Recorder { log: 0 }),
    {
        Recorder { log: 0 }
    }

    /// The delivery handler: log the message's digit.
    pub fn record(&mut self, value: Msg) -> (effs: Vec<Effect>)
        ensures
            final(self).log == record_spec(old(self).log, msg_digit(value)),
            effs@ == Seq::<Effect>::empty(),
    {
        let digit: i64 = match value {
            Msg::Unit => 0,
            Msg::Command(_) => 1,
            Msg::Sample(_) => 2,
            Msg::Volt(_) => 3,
            Msg::Position(_, _, _) => 4,
            Msg::Level(v) => if 0 <= v && v <= 9 {
                v
            } else {
                9
            },
        };
        if 0 <= self.log && self.log <= (i64::MAX - 9) / 10 {
            self.log = self.log * 10 + digit;
        }
        Vec::new()
    }
}

/// The closed set of model kinds the kernel dispatches over.
#[derive(Clone, Copy, PartialEq, Eq, Structural, Debug)]
pub enum ModelKind {
    Sensor(SunSensor),
    Dyn(Dynamics),
    Obc(Obc),
    Recorder(Recorder),
}

/// The event-handler transition of a model: new state and effects.
/// Unknown ports and unexpected payloads are ignored.
pub open spec fn ev_step(m: ModelKind, port: u32, value: Msg, now: u64) -> (ModelKind, Seq<
    Effect,
>) {
    match m {
        ModelKind::Sensor(s) => {
            if port == SENSOR_PORT_VOLTAGE {
                match value {
                    Msg::Volt(mv) => {
                        let r = sensor_voltage_step(s, mv);
                        (ModelKind::Sensor(r.0), r.1)
                    },
                    _ => (m, Seq::empty()),
                }
            } else if port == SENSOR_PORT_TC {
                match value {
                    Msg::Command(cmd) => {
                        let r = sensor_tc_step(s, cmd);
                        (ModelKind::Sensor(r.0), r.1)
                    },
                    _ => (m, Seq::empty()),
                }
            } else {
                (m, Seq::empty())
            }
        },
        ModelKind::Dyn(_) => (m, Seq::empty()),
        ModelKind::Obc(o) => {
            if port == OBC_PORT_SEND {
                (m, seq![Effect::Emit { port: OBC_OUT_TM, value: Msg::Command(obc_command(o)) }])
            } else {
                (m, Seq::empty())
            }
        },
        ModelKind::Recorder(r) => {
            if port == RECORDER_PORT_IN {
                (
                    ModelKind::Recorder(Recorder { log: record_spec(r.log, msg_digit(value)) }),
                    Seq::empty(),
                )
            } else {
                (m, Seq::empty())
            }
        },
    }
}

/// The query-handler transition of a model: new state and reply.
pub open spec fn query_step(m: ModelKind, value: Msg, now: u64) -> (ModelKind, Msg) {
    match m {
        ModelKind::Sensor(s) => (m, Msg::Volt(s.voltage)),
        ModelKind::Dyn(_) => (m, sun_position_spec(now)),
        ModelKind::Obc(_) => (m, Msg::Unit),
        ModelKind::Recorder(r) => (m, Msg::Level(r.log)),
    }
}

/// The reply-handler transition of a model, resuming a suspended request.
pub open spec fn reply_step(m: ModelKind, cont: u32, value: Msg, now: u64) -> (ModelKind, Seq<
    Effect,
>) {
    match m {
        ModelKind::Sensor(s) => {
            let r = sensor_reply_step(s, cont, value);
            (ModelKind::Sensor(r.0), r.1)
        },
        _ => (m, Seq::empty()),
    }
}

/// The init-hook transition of a model, run once at initialization.
pub open spec fn init_step(m: ModelKind, now: u64) -> (ModelKind, Seq<Effect>) {
    match m {
        ModelKind::Obc(_) => (
            m,
            seq![
                Effect::Schedule {
                    delay: NANOS_PER_SEC,
                    port: OBC_PORT_SEND,
                    value: Msg::Unit,
                    period: NANOS_PER_SEC,
                },
            ],
        ),
        _ => (m, Seq::empty()),
    }
}

/// Dispatches an event delivery to the model's handler.
pub fn handle_event(m: &mut ModelKind, port: u32, value: Msg, now: u64) -> (effs: Vec<Effect>)
    ensures
        *final(m) == ev_step(*old(m), port, value, now).0,
        effs@ == ev_step(*old(m), port, value, now).1,
{
    match m {
        ModelKind::Sensor(s) => {
            if port == SENSOR_PORT_VOLTAGE {
                match value {
                    Msg::Volt(mv) => s.voltage_in(mv),
                    _ => Vec::new(),
                }
            } else if port == SENSOR_PORT_TC {
                match value {
                    Msg::Command(cmd) => s.tc(cmd),
                    _ => Vec::new(),
                }
            } else {
                Vec::new()
            }
        },
        ModelKind::Dyn(_) => Vec::new(),
        ModelKind::Obc(o) => {
            if port == OBC_PORT_SEND {
                o.send_sample_command()
            } else {
                Vec::new()
            }
        },
        ModelKind::Recorder(r) => {
            if port == RECORDER_PORT_IN {
                r.record(value)
            } else {
                Vec::new()
            }
        },
    }
}

/// Dispatches a query to the model's query handler.
pub fn handle_query(m: &mut ModelKind, value: Msg, now: u64) -> (reply: Msg)
    ensures
        *final(m) == query_step(*old(m), value, now).0,
        reply == query_step(*old(m), value, now).1,
{
    match m {
        ModelKind::Sensor(s) => Msg::Volt(s.voltage),
        ModelKind::Dyn(d) => d.sun_position(now),
        ModelKind::Obc(_) => Msg::Unit,
        ModelKind::Recorder(r) => Msg::Level(r.log),
    }
}

/// Dispatches a reply delivery to the model's reply handler.
pub fn handle_reply(m: &mut ModelKind, cont: u32, value: Msg, now: u64) -> (effs: Vec<Effect>)
    ensures
        *final(m) == reply_step(*old(m), cont, value, now).0,
        effs@ == reply_step(*old(m), cont, value, now).1,
{
    match m {
        ModelKind::Sensor(s) => s.on_sun_position(cont, value),
        _ => Vec::new(),
    }
}

/// Runs the model's init hook.
pub fn handle_init(m: &mut ModelKind, now: u64) -> (effs: Vec<Effect>)
    ensures
        *final(m) == init_step(*old(m), now).0,
        effs@ == init_step(*old(m), now).1,
{
    match m {
        ModelKind::Obc(o) => o.init(),
        _ => Vec::new(),
    }
}

} // verus!
