use vstd::prelude::*;
use crate::itinerary::{Itinerary, ItineraryView};
use crate::map::{find_turn, lemma_find_turn, turns_from, LaneID, RoadMap};
use crate::traffic::TrafficBehavior;
use crate::rng::SimRng;
use crate::traversable::{Traversable, TraverseDirection, TraverseKind};
use crate::turn::{Turn, TurnID};

verus! {

/// The itinerary after the stale-plan check and the step towards the target:
/// a plan whose traversable left the map is dropped; then, when the agent is
/// near its target point, it moves on to the next point if more than one point
/// is left or entry past the last one is open at time `t`.
pub open spec fn refreshed<P>(v: ItineraryView<P>, map: &RoadMap<P>, t: int, near: bool) -> ItineraryView<P> {
    let v1 = match v.travers {
        Some(tr) => if tr.spec_is_valid(map) {
            v
        } else {
            ItineraryView::none()
        },
        None => v,
    };
    if v1.point() is Some && near && (v1.remaining() > 1 || v1.travers->0.spec_can_pass(
        t,
        map.lanes@,
    )) {
        v1.advanced()
    } else {
        v1
    }
}

/// The turns that leave the end of the lane that `v` follows, if it follows one.
pub open spec fn lane_exits<P>(v: ItineraryView<P>, map: &RoadMap<P>) -> Seq<TurnID> {
    match v.travers {
        Some(tr) => match tr.kind {
            TraverseKind::Lane(id) => turns_from(
                map.intersections@[map.lanes@[id.0 as int].dst.0 as int].turns@,
                id,
            ),
            TraverseKind::Turn(_) => Seq::empty(),
        },
        None => Seq::empty(),
    }
}

/// The next plan once `v` has ended: with no plan, the lane `closest` (if
/// any); after a turn, its destination lane; after a lane, exit turn `c` of
/// the lane (none if the lane has no exit). A plan that has not ended is kept.
pub open spec fn replanned<P>(
    v: ItineraryView<P>,
    map: &RoadMap<P>,
    closest: Option<LaneID>,
    c: int,
) -> ItineraryView<P> {
    if !v.ended() {
        v
    } else {
        match v.travers {
            None => match closest {
                Some(id) => ItineraryView::simple(
                    Traversable { kind: TraverseKind::Lane(id), dir: TraverseDirection::Forward },
                    map,
                ),
                None => v,
            },
            Some(tr) => match tr.kind {
                TraverseKind::Turn(id) => ItineraryView::simple(
                    Traversable { kind: TraverseKind::Lane(id.dst), dir: TraverseDirection::Forward },
                    map,
                ),
                TraverseKind::Lane(_) => {
                    let exits = lane_exits(v, map);
                    if exits.len() == 0 {
                        v
                    } else {
                        ItineraryView::simple(
                            Traversable {
                                kind: TraverseKind::Turn(exits[c]),
                                dir: TraverseDirection::Forward,
                            },
                            map,
                        )
                    }
                },
            },
        }
    }
}

/// Every exit listed for a lane is a turn that the map holds.
proof fn lemma_exits_valid<P>(turns: Seq<Turn<P>>, lane: LaneID, j: int)
    requires
        0 <= j < turns_from(turns, lane).len(),
    ensures
        find_turn(turns, turns_from(turns, lane)[j]) is Some,
        exists|k: int| 0 <= k < turns.len() && (#[trigger] turns[k]).id == turns_from(turns, lane)[j],
    decreases turns.len(),
{
    let id = turns_from(turns, lane)[j];
    let rest = turns_from(turns.drop_last(), lane);
    if j < rest.len() {
        lemma_exits_valid(turns.drop_last(), lane, j);
        let k = choose|k: int| 0 <= k < turns.drop_last().len() && (#[trigger] turns.drop_last()[k]).id == id;
        assert(turns[k] == turns.drop_last()[k]);
    } else {
        assert(turns[turns.len() - 1] == turns.last());
    }
    lemma_find_turn(turns, id);
}

/// Per-tick refresh of an agent's itinerary.
///
/// `near_objective` tells whether the agent is within the objective distance
/// of its current target point, and `closest_lane` is the lane nearest to it;
/// `rng` picks the exit turn when a lane ends.
pub fn objective_update<P: Copy>(
    it: &mut Itinerary<P>,
    time_seconds: u64,
    near_objective: bool,
    closest_lane: Option<LaneID>,
    rng: &mut SimRng,
    map: &RoadMap<P>,
)
    requires
        old(it)@.wf(),
        map.wf(),
        closest_lane matches Some(id) ==> id.0 < map.lanes@.len(),
    ensures
        final(it)@.wf(),
        final(it)@.travers is Some ==> final(it)@.travers->0.spec_is_valid(map),
        ({
            let v = refreshed(old(it)@, map, time_seconds as int, near_objective);
            let n = lane_exits(v, map).len();
            exists|c: int|
                (c == 0 || 0 <= c < n) && final(it)@ == #[trigger] replanned(v, map, closest_lane, c)
        }),
{
    let ghost v0 = it@;
    let stale = match it.get_travers() {
        Some(t) => !t.is_valid(map),
        None => false,
    };
    if stale {
        it.set_none();
    }
    let has_point = it.get_point().is_some();
    if has_point && near_objective {
        let k: Traversable = match it.get_travers() {
            Some(t) => *t,
            None => {
                assert(false);
                return ;
            },
        };
        proof {
            if k.kind is Lane {
                let id = k.kind->Lane_0;
                assert(map.lanes@[id.0 as int].control.wf());
            }
        }
        if it.remaining_points() > 1 || k.can_pass(time_seconds, map.lanes()) {
            it.advance();
        }
    }
    let ghost v = it@;
    assert(v == refreshed(v0, map, time_seconds as int, near_objective));
    if !it.has_ended() {
        assert(it@ == replanned(v, map, closest_lane, 0));
        return ;
    }
    let tr: Option<Traversable> = match it.get_travers() {
        Some(t) => Some(*t),
        None => None,
    };
    match tr {
        None => {
            match closest_lane {
                Some(id) => {
                    it.set_simple(Traversable::new(TraverseKind::Lane(id), TraverseDirection::Forward), map);
                },
                None => {},
            }
            assert(it@ == replanned(v, map, closest_lane, 0));
        },
        Some(t) => {
            match t.kind {
                TraverseKind::Turn(id) => {
                    proof {
                        let turns = map.intersections@[id.parent.0 as int].turns@;
                        lemma_find_turn(turns, id);
                        let k = find_turn(turns, id)->0;
                        assert(map.intersections@[id.parent.0 as int].turns@[k].id.dst.0 < map.lanes@.len());
                    }
                    it.set_simple(
                        Traversable::new(TraverseKind::Lane(id.dst), TraverseDirection::Forward),
                        map,
                    );
                    assert(it@ == replanned(v, map, closest_lane, 0));
                },
                TraverseKind::Lane(id) => {
                    let lane = &map.lanes[id.0];
                    assert(lane.dst.0 < map.intersections@.len());
                    let inter = &map.intersections[lane.dst.0];
                    let neighs = inter.turns_from(id);
                    if neighs.len() == 0 {
                        assert(it@ == replanned(v, map, closest_lane, 0));
                        return ;
                    }
                    let c = rng.index(neighs.len());
                    let turn_id = neighs[c];
                    proof {
                        lemma_exits_valid(inter.turns@, id, c as int);
                        let k = choose|k: int|
                            0 <= k < inter.turns@.len() && (#[trigger] inter.turns@[k]).id == turn_id;
                        assert(inter.turns@[k].id.parent == inter.id);
                        assert(inter.id == map.intersections@[lane.dst.0 as int].id);
                    }
                    it.set_simple(
                        Traversable::new(TraverseKind::Turn(turn_id), TraverseDirection::Forward),
                        map,
                    );
                    assert(it@ == replanned(v, map, closest_lane, c as int));
                },
            }
        },
    }
}


/// What awaits the agent at its next point: when that point is the last one of
/// a lane, the lane's control at time `t`; otherwise nothing.
pub open spec fn spec_upcoming_behavior<P>(v: ItineraryView<P>, map: &RoadMap<P>, t: int) -> Option<
    TrafficBehavior,
> {
    if v.remaining() == 1 && v.travers is Some && v.travers->0.kind is Lane {
        Some(map.lanes@[v.travers->0.kind->Lane_0.0 as int].control.behavior(t))
    } else {
        None
    }
}

/// The control that the agent faces at the end of its lane, if its next point
/// is the last one of a lane.
pub fn upcoming_behavior<P>(it: &Itinerary<P>, map: &RoadMap<P>, time_seconds: u64) -> (r: Option<
    TrafficBehavior,
>)
    requires
        it@.wf(),
        map.wf(),
        it@.travers is Some ==> it@.travers->0.spec_is_valid(map),
    ensures
        r == spec_upcoming_behavior(it@, map, time_seconds as int),
{
    if it.remaining_points() != 1 {
        return None;
    }
    match it.get_travers() {
        Some(tr) => match tr.kind {
            TraverseKind::Lane(id) => {
                assert(map.lanes@[id.0 as int].control.wf());
                Some(map.lanes[id.0].control.get_behavior(time_seconds))
            },
            TraverseKind::Turn(_) => None,
        },
        None => None,
    }
}

} // verus!
