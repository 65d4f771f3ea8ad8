use scale::map::{IntersectionID, LaneID};
use scale::polyline::PolyLine;
use scale::turn::{Turn, TurnID, TurnKind, N_SPLINE};

#[test]
fn polyline_push_pop_and_access() {
    let mut p: PolyLine<(i32, i32)> = PolyLine::with_capacity(4);
    assert_eq!(p.n_points(), 0);
    assert!(p.first().is_none());
    assert!(p.pop().is_none());
    assert!(p.pop_first().is_none());
    p.push((1, 2));
    p.push((3, 4));
    p.extend(&[(5, 6), (7, 8)]);
    assert_eq!(p.n_points(), 4);
    assert_eq!(p.as_slice(), &[(1, 2), (3, 4), (5, 6), (7, 8)]);
    assert_eq!(p.get(2), Some(&(5, 6)));
    assert_eq!(p.get(4), None);
    assert_eq!(p.first(), Some(&(1, 2)));
    assert_eq!(p.last(), Some(&(7, 8)));
    assert_eq!(p.pop_first(), Some((1, 2)));
    assert_eq!(p.pop(), Some((7, 8)));
    assert_eq!(p.as_slice(), &[(3, 4), (5, 6)]);
    *p.first_mut().unwrap() = (0, 0);
    *p.last_mut().unwrap() = (9, 9);
    assert_eq!(p.iter().copied().collect::<Vec<_>>(), vec![(0, 0), (9, 9)]);
    p.clear();
    assert_eq!(p.n_points(), 0);
    assert!(p.last_mut().is_none());
}

#[test]
fn polyline_new_keeps_points() {
    let p = PolyLine::new(vec![1u8, 2, 3]);
    assert_eq!(p.as_slice(), &[1, 2, 3]);
    let d: PolyLine<u8> = PolyLine::default();
    assert_eq!(d.n_points(), 0);
}

fn turn_id() -> TurnID {
    TurnID::new(IntersectionID(0), LaneID(1), LaneID(2))
}

#[test]
fn crosswalk_turn_has_two_points() {
    let mut t: Turn<(f32, f32)> = Turn::new(turn_id(), TurnKind::Crosswalk);
    assert!(TurnKind::Crosswalk.is_crosswalk());
    t.make_points((0.0, 0.0), (10.0, 0.0), |_, _| (f32::NAN, f32::NAN));
    assert_eq!(t.points.as_slice(), &[(0.0, 0.0), (10.0, 0.0)]);
}

#[test]
fn curved_turns_have_eight_points() {
    for kind in [TurnKind::Normal, TurnKind::WalkingCorner] {
        assert!(!kind.is_crosswalk());
        let mut t: Turn<(usize, usize)> = Turn::new(turn_id(), kind);
        t.make_points((100, 100), (200, 200), |i, n| (i, n));
        assert_eq!(t.points.n_points(), N_SPLINE + 2);
        assert_eq!(t.points.n_points(), 8);
        assert_eq!(
            t.points.as_slice(),
            &[(100, 100), (1, 7), (2, 7), (3, 7), (4, 7), (5, 7), (6, 7), (200, 200)]
        );
        // Rebuilding replaces the old path.
        t.make_points((1, 1), (2, 2), |i, n| (i, n));
        assert_eq!(t.points.n_points(), 8);
        assert_eq!(t.points.first(), Some(&(1, 1)));
    }
}

#[test]
fn turn_ids_compare_by_fields() {
    assert_eq!(turn_id(), TurnID { parent: IntersectionID(0), src: LaneID(1), dst: LaneID(2) });
    assert_ne!(turn_id(), TurnID::new(IntersectionID(0), LaneID(2), LaneID(1)));
}
