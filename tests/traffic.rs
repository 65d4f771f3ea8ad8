use scale::traffic::{TrafficBehavior, TrafficControl, TrafficLightSchedule};

#[test]
fn light_schedule_phases() {
    let s = TrafficLightSchedule::from_basic(10, 4, 14, 3);
    assert_eq!(s.period(), 28);
    assert_eq!(s.get_behavior(0), TrafficBehavior::GREEN);
    assert_eq!(s.get_behavior(6), TrafficBehavior::GREEN);
    assert_eq!(s.get_behavior(7), TrafficBehavior::ORANGE);
    assert_eq!(s.get_behavior(10), TrafficBehavior::ORANGE);
    assert_eq!(s.get_behavior(11), TrafficBehavior::RED);
    assert_eq!(s.get_behavior(24), TrafficBehavior::RED);
    assert_eq!(s.get_behavior(25), TrafficBehavior::GREEN);
}

#[test]
fn light_schedule_is_periodic() {
    for offset in [0usize, 5, 14, 23] {
        let s = TrafficLightSchedule::from_basic(10, 4, 14, offset);
        for t in 0u64..100 {
            assert_eq!(s.get_behavior(t), s.get_behavior(t + s.period() as u64));
        }
    }
}

#[test]
fn light_schedule_handles_extreme_times() {
    let s = TrafficLightSchedule::from_basic(10, 4, 14, usize::MAX);
    let t = u64::MAX - 5;
    let expected = ((t as u128 + usize::MAX as u128) % 28) as usize;
    let b = s.get_behavior(t);
    if expected < 10 {
        assert_eq!(b, TrafficBehavior::GREEN);
    } else if expected < 14 {
        assert_eq!(b, TrafficBehavior::ORANGE);
    } else {
        assert_eq!(b, TrafficBehavior::RED);
    }
}

#[test]
fn half_cycle_offsets_alternate() {
    let a = TrafficLightSchedule::from_basic(10, 4, 14, 14 + 2);
    let b = TrafficLightSchedule::from_basic(10, 4, 14, 2);
    for t in 0u64..56 {
        let (x, y) = (a.get_behavior(t), b.get_behavior(t));
        assert!(!(x == TrafficBehavior::GREEN && y == TrafficBehavior::GREEN));
    }
}

#[test]
fn control_behaviours() {
    assert_eq!(TrafficControl::Always.get_behavior(5), TrafficBehavior::GREEN);
    assert_eq!(TrafficControl::StopSign.get_behavior(5), TrafficBehavior::STOP);
    let l = TrafficControl::Light(TrafficLightSchedule::from_basic(1, 1, 1, 0));
    assert_eq!(l.get_behavior(0), TrafficBehavior::GREEN);
    assert_eq!(l.get_behavior(1), TrafficBehavior::ORANGE);
    assert_eq!(l.get_behavior(2), TrafficBehavior::RED);
    assert!(l.is_light() && !l.is_always() && !l.is_stop_sign());
    assert!(TrafficBehavior::GREEN.may_enter());
    assert!(TrafficBehavior::STOP.may_enter());
    assert!(!TrafficBehavior::RED.may_enter());
    assert!(!TrafficBehavior::ORANGE.may_enter());
}

