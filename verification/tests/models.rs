use simkernel::event::Effect;
use simkernel::models::{
    sat_add, Obc, Pending, ProtoSunSensor, Recorder, SunSensor, OBC_OUT_TM, SENSOR_OUT_POWER,
    SENSOR_REQ_SUN,
};
use simkernel::msg::{Msg, SampleCommand};

#[test]
fn saturating_addition_clamps_at_the_integer_range() {
    assert_eq!(sat_add(1, 2), 3);
    assert_eq!(sat_add(-5, 2), -3);
    assert_eq!(sat_add(i64::MAX, 1), i64::MAX);
    assert_eq!(sat_add(i64::MAX - 1, 5), i64::MAX);
    assert_eq!(sat_add(i64::MIN, -1), i64::MIN);
    assert_eq!(sat_add(i64::MIN + 3, -7), i64::MIN);
}

#[test]
fn sensor_emits_power_transitions_only() {
    let mut s = SunSensor::new(0);
    let up = s.voltage_in(5000);
    assert_eq!(
        up,
        vec![Effect::Emit { port: SENSOR_OUT_POWER, value: Msg::Level(1) }]
    );
    let steady = s.voltage_in(6000);
    assert!(steady.is_empty());
    let down = s.voltage_in(0);
    assert_eq!(
        down,
        vec![Effect::Emit { port: SENSOR_OUT_POWER, value: Msg::Level(0) }]
    );
}

#[test]
fn unpowered_or_misaddressed_sensor_ignores_telecommands() {
    let mut s = SunSensor::new(1);
    let cmd = SampleCommand { src_address: 9, dest_address: 1 };
    assert!(s.tc(cmd).is_empty());
    s.voltage_in(5000);
    let wrong = SampleCommand { src_address: 9, dest_address: 2 };
    assert!(s.tc(wrong).is_empty());
    let effs = s.tc(cmd);
    assert_eq!(
        effs,
        vec![Effect::Request { port: SENSOR_REQ_SUN, value: Msg::Unit, cont: 0 }]
    );
    assert_eq!(s.pending, Pending::Awaiting(9));
    // A second command while one is in flight is dropped.
    assert!(s.tc(cmd).is_empty());
}

#[test]
fn prototype_build_fixes_the_environment_noise() {
    let proto = ProtoSunSensor::new(1);
    let mut s = proto.build(4);
    s.voltage_in(5000);
    let cmd = SampleCommand { src_address: 9, dest_address: 1 };
    s.tc(cmd);
    let effs = s.on_sun_position(0, Msg::Position(52, 10, 30));
    match effs.as_slice() {
        [Effect::Emit { value: Msg::Sample(reply), .. }] => {
            assert_eq!(reply.polar_angle, 34);
            assert_eq!(reply.azimuthal_angle, 10);
            assert_eq!(reply.src_address, 1);
            assert_eq!(reply.dest_address, 9);
        },
        other => panic!("unexpected effects: {:?}", other),
    }
    assert_eq!(s.pending, Pending::Idle);
}

#[test]
fn obc_broadcasts_its_sampling_command() {
    let o = Obc::new(3, 1);
    let effs = o.send_sample_command();
    assert_eq!(
        effs,
        vec![Effect::Emit {
            port: OBC_OUT_TM,
            value: Msg::Command(SampleCommand { src_address: 3, dest_address: 1 }),
        }]
    );
}

#[test]
fn recorder_logs_messages_as_decimal_digits() {
    let mut r = Recorder::new();
    r.record(Msg::Level(3));
    r.record(Msg::Command(SampleCommand { src_address: 0, dest_address: 0 }));
    r.record(Msg::Level(77));
    assert_eq!(r.log, 319);
}
