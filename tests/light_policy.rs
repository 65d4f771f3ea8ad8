use scale::light_policy::LightPolicy;
use scale::map::{heading_angle, Intersection, IntersectionID, Lane, LaneID, LaneKind, Road, RoadID};
use scale::polyline::PolyLine;
use scale::traffic::TrafficControl;

type Pt = (i32, i32);

fn lane(id: usize, parent: usize, kind: LaneKind, src: usize, dst: usize) -> Lane<Pt> {
    Lane {
        id: LaneID(id),
        parent: RoadID(parent),
        kind,
        control: TrafficControl::StopSign,
        src: IntersectionID(src),
        dst: IntersectionID(dst),
        points: PolyLine::new(vec![(0, 0), (1, 1)]),
    }
}

/// An intersection 0 where each road `r` comes from intersection `r + 1`, with
/// heading `headings[r]` as seen from intersection 0 and the given kinds of
/// incoming lanes; every road also has one outgoing driving lane.
fn star(roads_spec: &[(u32, Vec<LaneKind>)]) -> (Intersection<Pt>, Vec<Lane<Pt>>, Vec<Road>) {
    let mut lanes = Vec::new();
    let mut roads = Vec::new();
    for (r, (heading, kinds)) in roads_spec.iter().enumerate() {
        let mut incoming = Vec::new();
        for k in kinds {
            let id = lanes.len();
            lanes.push(lane(id, r, *k, r + 1, 0));
            incoming.push(LaneID(id));
        }
        let out = lanes.len();
        lanes.push(lane(out, r, LaneKind::Driving, 0, r + 1));
        roads.push(Road {
            id: RoadID(r),
            src: IntersectionID(0),
            dst: IntersectionID(r + 1),
            lanes_forward: vec![LaneID(out)],
            lanes_backward: incoming,
            src_heading: *heading,
            dst_heading: (*heading + 1_800_000) % 3_600_000,
        });
    }
    let inter = Intersection {
        id: IntersectionID(0),
        roads: (0..roads.len()).map(RoadID).collect(),
        turns: Vec::new(),
    };
    (inter, lanes, roads)
}

fn incoming_of(roads: &[Road], r: usize) -> Vec<usize> {
    roads[r].lanes_backward.iter().map(|l| l.0).collect()
}

const EAST: u32 = 0;
const NORTH: u32 = 900_000;
const WEST: u32 = 1_800_000;
const SOUTH: u32 = 2_700_000;

#[test]
fn heading_angles() {
    assert_eq!(heading_angle(EAST, NORTH), 900_000);
    assert_eq!(heading_angle(NORTH, EAST), 900_000);
    assert_eq!(heading_angle(EAST, WEST), 1_800_000);
    assert_eq!(heading_angle(100, 3_599_900), 200);
    assert_eq!(heading_angle(3_600_000 + 5, 5), 0);
    assert_eq!(heading_angle(SOUTH, EAST), 900_000);
}

#[test]
fn default_policy_is_smart() {
    assert!(LightPolicy::default() == LightPolicy::Smart);
}

#[test]
fn smart_with_two_groups_leaves_lanes_open() {
    let d = LaneKind::Driving;
    let (inter, mut lanes, roads) = star(&[
        (EAST, vec![d, d]),
        (WEST, vec![d]),
        (NORTH, vec![LaneKind::Walking]),
    ]);
    LightPolicy::Smart.apply(&inter, &mut lanes, &roads);
    for r in 0..2 {
        for l in incoming_of(&roads, r) {
            assert!(lanes[l].control.is_always());
        }
    }
    // Walking lanes and outgoing lanes are not touched.
    for l in incoming_of(&roads, 2) {
        assert!(lanes[l].control.is_stop_sign());
    }
    assert!(lanes[roads[0].lanes_forward[0].0].control.is_stop_sign());
}

#[test]
fn no_lights_leaves_every_lane_open() {
    let d = LaneKind::Driving;
    let (inter, mut lanes, roads) = star(&[
        (EAST, vec![d]),
        (NORTH, vec![LaneKind::Bus]),
        (WEST, vec![LaneKind::Biking]),
        (SOUTH, vec![d]),
    ]);
    LightPolicy::NoLights.apply(&inter, &mut lanes, &roads);
    for r in 0..4 {
        for l in incoming_of(&roads, r) {
            assert!(lanes[l].control.is_always());
        }
    }
}

#[test]
fn stop_signs_everywhere() {
    let d = LaneKind::Driving;
    let (inter, mut lanes, roads) = star(&[(EAST, vec![d, d]), (WEST, vec![d, LaneKind::Walking])]);
    for l in lanes.iter_mut() {
        l.control = TrafficControl::Always;
    }
    LightPolicy::StopSigns.apply(&inter, &mut lanes, &roads);
    assert!(lanes[0].control.is_stop_sign());
    assert!(lanes[1].control.is_stop_sign());
    let west = incoming_of(&roads, 1);
    assert!(lanes[west[0]].control.is_stop_sign());
    assert!(lanes[west[1]].control.is_always());
}

#[test]
fn smart_t_junction_demotes_the_minor_road() {
    let d = LaneKind::Driving;
    let (inter, mut lanes, roads) = star(&[(EAST, vec![d]), (WEST, vec![d, d]), (NORTH, vec![d])]);
    LightPolicy::Smart.apply(&inter, &mut lanes, &roads);
    for l in incoming_of(&roads, 0).into_iter().chain(incoming_of(&roads, 1)) {
        assert!(lanes[l].control.is_always());
    }
    for l in incoming_of(&roads, 2) {
        assert!(lanes[l].control.is_stop_sign());
    }

    let (inter, mut lanes, roads) = star(&[(EAST, vec![d]), (NORTH, vec![d]), (WEST, vec![d])]);
    LightPolicy::Smart.apply(&inter, &mut lanes, &roads);
    assert!(lanes[incoming_of(&roads, 0)[0]].control.is_always());
    assert!(lanes[incoming_of(&roads, 1)[0]].control.is_stop_sign());
    assert!(lanes[incoming_of(&roads, 2)[0]].control.is_always());
}

#[test]
fn smart_with_aligned_roads_demotes_nothing() {
    let d = LaneKind::Driving;
    let (inter, mut lanes, roads) = star(&[(EAST, vec![d]), (EAST, vec![d]), (EAST, vec![d])]);
    LightPolicy::Smart.apply(&inter, &mut lanes, &roads);
    for r in 0..3 {
        assert!(lanes[incoming_of(&roads, r)[0]].control.is_always());
    }
}

fn light_offset(c: &TrafficControl) -> usize {
    match c {
        TrafficControl::Light(s) => {
            assert_eq!((s.green(), s.orange(), s.red(), s.period()), (10, 4, 14, 28));
            s.offset()
        }
        _ => panic!("expected a light"),
    }
}

#[test]
fn lights_alternate_by_half_a_cycle() {
    let d = LaneKind::Driving;
    for policy in [LightPolicy::Lights, LightPolicy::Smart] {
        let (inter, mut lanes, roads) = star(&[
            (EAST, vec![d, d]),
            (NORTH, vec![d]),
            (WEST, vec![d]),
            (SOUTH, vec![d]),
        ]);
        policy.apply(&inter, &mut lanes, &roads);
        let base = light_offset(&lanes[incoming_of(&roads, 1)[0]].control);
        assert!(base < 10);
        for r in 0..4 {
            for l in incoming_of(&roads, r) {
                let off = light_offset(&lanes[l].control);
                assert_eq!(off, if r % 2 == 0 { 14 + base } else { base });
            }
        }
    }
}

#[test]
fn light_offset_is_reproducible() {
    let d = LaneKind::Driving;
    let spec = [(EAST, vec![d]), (NORTH, vec![d])];
    let (inter, mut a, roads) = star(&spec);
    let (_, mut b, _) = star(&spec);
    LightPolicy::Lights.apply(&inter, &mut a, &roads);
    LightPolicy::Lights.apply(&inter, &mut b, &roads);
    assert_eq!(light_offset(&a[0].control), light_offset(&b[0].control));
}

#[test]
fn apply_with_given_offset() {
    let d = LaneKind::Driving;
    let (inter, mut lanes, roads) = star(&[(EAST, vec![d]), (NORTH, vec![d])]);
    LightPolicy::Lights.apply_with_offset(&inter, &mut lanes, &roads, 7);
    assert_eq!(light_offset(&lanes[incoming_of(&roads, 0)[0]].control), 21);
    assert_eq!(light_offset(&lanes[incoming_of(&roads, 1)[0]].control), 7);
}
