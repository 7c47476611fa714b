use simkernel::event::{Address, Error};
use simkernel::models::{
    ModelKind, Obc, Recorder, SunSensor, NANOS_PER_SEC, OBC_OUT_TM, RECORDER_PORT_IN,
    SENSOR_OUT_POWER, SENSOR_OUT_TM, SENSOR_PORT_TC, SENSOR_PORT_VOLTAGE, SENSOR_REQ_SUN,
};
use simkernel::msg::{Msg, SampleCommand, SampleReply};
use simkernel::sim::Simulation;

const SEC: u64 = NANOS_PER_SEC;

#[test]
fn step_until_into_the_past_fails_and_clock_is_unchanged() {
    let mut sim = Simulation::new();
    sim.register(ModelKind::Recorder(Recorder::new()), 1).unwrap();
    sim.initialize(5 * SEC).unwrap();
    assert_eq!(sim.time(), 5 * SEC);
    assert_eq!(sim.step_until(4 * SEC), Err(Error::PastScheduling));
    assert_eq!(sim.time(), 5 * SEC);
    // The simulation stays usable.
    sim.step_until(6 * SEC).unwrap();
    assert_eq!(sim.time(), 6 * SEC);
}

#[test]
fn scheduling_into_the_past_fails_and_clock_is_unchanged() {
    let mut sim = Simulation::new();
    let rec = sim.register(ModelKind::Recorder(Recorder::new()), 1).unwrap();
    sim.initialize(2 * SEC).unwrap();
    let r = sim.schedule_event(SEC, rec, RECORDER_PORT_IN, Msg::Level(1));
    assert_eq!(r, Err(Error::PastScheduling));
    assert_eq!(sim.time(), 2 * SEC);
}

#[test]
fn duplicate_names_are_rejected() {
    let mut sim = Simulation::new();
    sim.register(ModelKind::Recorder(Recorder::new()), 7).unwrap();
    let r = sim.register(ModelKind::Dyn(simkernel::models::Dynamics), 7);
    assert_eq!(r, Err(Error::DuplicateAddress));
    // A different name still registers.
    sim.register(ModelKind::Dyn(simkernel::models::Dynamics), 8).unwrap();
}

#[test]
fn wiring_after_initialization_fails() {
    let mut sim = Simulation::new();
    let a = sim.register(ModelKind::Recorder(Recorder::new()), 1).unwrap();
    let b = sim.register(ModelKind::Recorder(Recorder::new()), 2).unwrap();
    sim.initialize(0).unwrap();
    assert_eq!(
        sim.connect(a, 0, b, RECORDER_PORT_IN),
        Err(Error::LatePortConnection)
    );
    let slot = sim.add_capture();
    assert_eq!(sim.connect_sink(a, 0, slot), Err(Error::LatePortConnection));
    assert_eq!(sim.connect_requestor(a, 0, b), Err(Error::LatePortConnection));
}

#[test]
fn self_referential_query_is_reported() {
    let mut sim = Simulation::new();
    let sensor = sim
        .register(ModelKind::Sensor(SunSensor::new(1)), 1)
        .unwrap();
    // The sensor's requestor is wired back to the sensor itself.
    sim.connect_requestor(sensor, SENSOR_REQ_SUN, sensor).unwrap();
    sim.initialize(0).unwrap();
    sim.process_event(sensor, SENSOR_PORT_VOLTAGE, Msg::Volt(5000)).unwrap();
    let cmd = SampleCommand { src_address: 9, dest_address: 1 };
    let r = sim.process_event(sensor, SENSOR_PORT_TC, Msg::Command(cmd));
    assert_eq!(r, Err(Error::SelfReferentialQuery));
}

#[test]
fn unconnected_requestor_is_reported() {
    let mut sim = Simulation::new();
    let sensor = sim
        .register(ModelKind::Sensor(SunSensor::new(1)), 1)
        .unwrap();
    sim.initialize(0).unwrap();
    sim.process_event(sensor, SENSOR_PORT_VOLTAGE, Msg::Volt(5000)).unwrap();
    let cmd = SampleCommand { src_address: 9, dest_address: 1 };
    let r = sim.process_event(sensor, SENSOR_PORT_TC, Msg::Command(cmd));
    assert_eq!(r, Err(Error::UnresolvedQuery));
}

#[test]
fn capture_slot_is_consumed_once() {
    let mut sim = Simulation::new();
    let obc = sim.register(ModelKind::Obc(Obc::new(3, 1)), 1).unwrap();
    let slot = sim.add_capture();
    sim.connect_sink(obc, OBC_OUT_TM, slot).unwrap();
    sim.initialize(0).unwrap();
    sim.step_until(SEC).unwrap();
    let expected = Msg::Command(SampleCommand { src_address: 3, dest_address: 1 });
    assert_eq!(sim.next(slot), Some(expected));
    assert_eq!(sim.next(slot), None);
}

#[test]
fn fifo_tie_break_dispatches_in_insertion_order() {
    let mut sim = Simulation::new();
    let rec = sim.register(ModelKind::Recorder(Recorder::new()), 1).unwrap();
    sim.initialize(0).unwrap();
    // Two events scheduled for the same instant, in order 1 then 2.
    sim.schedule_event(SEC, rec, RECORDER_PORT_IN, Msg::Level(1)).unwrap();
    sim.schedule_event(SEC, rec, RECORDER_PORT_IN, Msg::Level(2)).unwrap();
    sim.step_until(SEC).unwrap();
    let log = sim.process_query(rec, Msg::Unit).unwrap();
    assert_eq!(log, Msg::Level(12));
}

#[test]
fn fifo_tie_break_holds_across_different_models() {
    let mut sim = Simulation::new();
    // Event A targets the sensor, whose telecommand cascades through the
    // dynamics query into a telemetry broadcast logged by the recorder;
    // event B targets the recorder directly.  Scheduled A then B for the
    // same instant, A and its whole cascade resolve first.
    let sensor = sim
        .register(ModelKind::Sensor(SunSensor::new(1)), 1)
        .unwrap();
    let dynamics = sim
        .register(ModelKind::Dyn(simkernel::models::Dynamics), 2)
        .unwrap();
    let rec = sim.register(ModelKind::Recorder(Recorder::new()), 3).unwrap();
    sim.connect(sensor, SENSOR_OUT_TM, rec, RECORDER_PORT_IN).unwrap();
    sim.connect_requestor(sensor, SENSOR_REQ_SUN, dynamics).unwrap();
    sim.initialize(0).unwrap();
    sim.process_event(sensor, SENSOR_PORT_VOLTAGE, Msg::Volt(5000)).unwrap();
    let cmd = SampleCommand { src_address: 9, dest_address: 1 };
    sim.schedule_event(SEC, sensor, SENSOR_PORT_TC, Msg::Command(cmd)).unwrap();
    sim.schedule_event(SEC, rec, RECORDER_PORT_IN, Msg::Level(3)).unwrap();
    sim.step_until(SEC).unwrap();
    // The telemetry sample (digit 2) lands before the direct delivery
    // (digit 3).
    assert_eq!(sim.process_query(rec, Msg::Unit).unwrap(), Msg::Level(23));
}

#[test]
fn broadcast_delivers_to_all_sinks_in_connection_order() {
    let mut sim = Simulation::new();
    let obc = sim.register(ModelKind::Obc(Obc::new(4, 2)), 1).unwrap();
    let rec = sim.register(ModelKind::Recorder(Recorder::new()), 2).unwrap();
    let s1 = sim.add_capture();
    let s2 = sim.add_capture();
    let s3 = sim.add_capture();
    sim.connect_sink(obc, OBC_OUT_TM, s1).unwrap();
    sim.connect(obc, OBC_OUT_TM, rec, RECORDER_PORT_IN).unwrap();
    sim.connect_sink(obc, OBC_OUT_TM, s2).unwrap();
    sim.connect_sink(obc, OBC_OUT_TM, s3).unwrap();
    sim.initialize(0).unwrap();
    sim.process_event(obc, simkernel::models::OBC_PORT_SEND, Msg::Unit).unwrap();
    let expected = Msg::Command(SampleCommand { src_address: 4, dest_address: 2 });
    assert_eq!(sim.next(s1), Some(expected));
    assert_eq!(sim.next(s2), Some(expected));
    assert_eq!(sim.next(s3), Some(expected));
    // The handler sink got the delivery too.
    assert_eq!(sim.process_query(rec, Msg::Unit).unwrap(), Msg::Level(1));
    // A broadcast with zero connections is a valid no-op: nothing else fired.
    assert_eq!(sim.next(s1), None);
}

#[test]
fn power_on_threshold_transitions_exactly_once() {
    let mut sim = Simulation::new();
    let sensor = sim
        .register(ModelKind::Sensor(SunSensor::new(1)), 1)
        .unwrap();
    let power = sim.add_capture();
    sim.connect_sink(sensor, SENSOR_OUT_POWER, power).unwrap();
    sim.initialize(0).unwrap();
    // Voltage starts at zero: no transition observed yet.
    assert_eq!(sim.next(power), None);
    sim.process_event(sensor, SENSOR_PORT_VOLTAGE, Msg::Volt(5000)).unwrap();
    assert_eq!(sim.next(power), Some(Msg::Level(1)));
    // Feeding the same voltage again produces no further transition.
    sim.process_event(sensor, SENSOR_PORT_VOLTAGE, Msg::Volt(5000)).unwrap();
    assert_eq!(sim.next(power), None);
    // Dropping below the threshold powers off, once.
    sim.process_event(sensor, SENSOR_PORT_VOLTAGE, Msg::Volt(4999)).unwrap();
    assert_eq!(sim.next(power), Some(Msg::Level(0)));
}

#[test]
fn request_reply_chain_observes_one_value_at_ten_seconds() {
    let mut sim = Simulation::new();
    let sensor = sim
        .register(ModelKind::Sensor(SunSensor::new(1)), 1)
        .unwrap();
    let dynamics = sim
        .register(ModelKind::Dyn(simkernel::models::Dynamics), 2)
        .unwrap();
    let tm = sim.add_capture();
    sim.connect_sink(sensor, SENSOR_OUT_TM, tm).unwrap();
    sim.connect_requestor(sensor, SENSOR_REQ_SUN, dynamics).unwrap();
    sim.initialize(0).unwrap();
    sim.process_event(sensor, SENSOR_PORT_VOLTAGE, Msg::Volt(5000)).unwrap();
    let cmd = SampleCommand { src_address: 9, dest_address: 1 };
    sim.schedule_event(10 * SEC, sensor, SENSOR_PORT_TC, Msg::Command(cmd)).unwrap();
    // Nothing observed before the clock reaches ten seconds.
    assert_eq!(sim.next(tm), None);
    sim.step_until(10 * SEC).unwrap();
    // Exactly one value, computed from the clock value at ten seconds:
    // the dynamics reply at t = 10 s is (2 + 5*10, 10, 3*10) = (52, 10, 30).
    let expected = Msg::Sample(SampleReply {
        src_address: 1,
        dest_address: 9,
        polar_angle: 30,
        azimuthal_angle: 10,
    });
    assert_eq!(sim.next(tm), Some(expected));
    assert_eq!(sim.next(tm), None);
}

#[test]
fn dynamics_reply_is_computed_from_the_clock() {
    let mut sim = Simulation::new();
    let dynamics = sim
        .register(ModelKind::Dyn(simkernel::models::Dynamics), 2)
        .unwrap();
    sim.initialize(0).unwrap();
    sim.step_until(10 * SEC).unwrap();
    let r = sim.process_query(dynamics, Msg::Unit).unwrap();
    assert_eq!(r, Msg::Position(52, 10, 30));
}

#[test]
fn periodic_self_firing_produces_ten_firings_by_ten_seconds() {
    let mut sim = Simulation::new();
    // The OBC's init hook schedules its own firing every second from 1 s.
    let obc = sim.register(ModelKind::Obc(Obc::new(3, 1)), 1).unwrap();
    let rec = sim.register(ModelKind::Recorder(Recorder::new()), 2).unwrap();
    sim.connect(obc, OBC_OUT_TM, rec, RECORDER_PORT_IN).unwrap();
    sim.initialize(0).unwrap();
    sim.step_until(10 * SEC).unwrap();
    // Ten firings inclusive of the boundary, each logged as one digit 1.
    assert_eq!(sim.process_query(rec, Msg::Unit).unwrap(), Msg::Level(1111111111));
}

#[test]
fn periodic_schedule_cancelled_before_first_firing_never_fires() {
    let mut sim = Simulation::new();
    let rec = sim.register(ModelKind::Recorder(Recorder::new()), 1).unwrap();
    sim.initialize(0).unwrap();
    let key = sim
        .schedule_periodic_event(SEC, SEC, rec, RECORDER_PORT_IN, Msg::Level(1))
        .unwrap();
    assert!(sim.cancel(key));
    sim.step_until(10 * SEC).unwrap();
    assert_eq!(sim.process_query(rec, Msg::Unit).unwrap(), Msg::Level(0));
}

#[test]
fn periodic_schedule_runs_until_cancelled() {
    let mut sim = Simulation::new();
    let rec = sim.register(ModelKind::Recorder(Recorder::new()), 1).unwrap();
    sim.initialize(0).unwrap();
    let key = sim
        .schedule_periodic_event(SEC, SEC, rec, RECORDER_PORT_IN, Msg::Level(1))
        .unwrap();
    sim.step_until(3 * SEC).unwrap();
    assert!(sim.cancel(key));
    sim.step_until(10 * SEC).unwrap();
    // Three firings happened before the cancellation, none after.
    assert_eq!(sim.process_query(rec, Msg::Unit).unwrap(), Msg::Level(111));
}

fn run_scenario() -> (Vec<Option<Msg>>, Vec<Msg>) {
    let mut sim = Simulation::new();
    let sensor = sim
        .register(ModelKind::Sensor(SunSensor::new(1)), 1)
        .unwrap();
    let dynamics = sim
        .register(ModelKind::Dyn(simkernel::models::Dynamics), 2)
        .unwrap();
    let obc = sim.register(ModelKind::Obc(Obc::new(3, 1)), 3).unwrap();
    let rec = sim.register(ModelKind::Recorder(Recorder::new()), 4).unwrap();
    let tm = sim.add_capture();
    let power = sim.add_capture();
    sim.connect_sink(sensor, SENSOR_OUT_TM, tm).unwrap();
    sim.connect_sink(sensor, SENSOR_OUT_POWER, power).unwrap();
    sim.connect_requestor(sensor, SENSOR_REQ_SUN, dynamics).unwrap();
    sim.connect(obc, OBC_OUT_TM, sensor, SENSOR_PORT_TC).unwrap();
    sim.connect(obc, OBC_OUT_TM, rec, RECORDER_PORT_IN).unwrap();
    sim.initialize(0).unwrap();
    let mut captured = Vec::new();
    let mut replies = Vec::new();
    sim.process_event(sensor, SENSOR_PORT_VOLTAGE, Msg::Volt(5100)).unwrap();
    captured.push(sim.next(power));
    for step in 1..=5u64 {
        sim.step_until(step * SEC).unwrap();
        captured.push(sim.next(tm));
        replies.push(sim.process_query(dynamics, Msg::Unit).unwrap());
    }
    replies.push(sim.process_query(rec, Msg::Unit).unwrap());
    (captured, replies)
}

#[test]
fn replaying_the_same_stimuli_is_deterministic() {
    let first = run_scenario();
    let second = run_scenario();
    assert_eq!(first, second);
}

#[test]
fn addresses_are_copyable_handles() {
    let mut sim = Simulation::new();
    let rec = sim.register(ModelKind::Recorder(Recorder::new()), 1).unwrap();
    let alias: Address = rec;
    sim.initialize(0).unwrap();
    sim.process_event(alias, RECORDER_PORT_IN, Msg::Level(5)).unwrap();
    assert_eq!(sim.process_query(rec, Msg::Unit).unwrap(), Msg::Level(5));
}
