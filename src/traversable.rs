use vstd::prelude::*;
use crate::map::{find_turn, Lane, LaneID, RoadMap};
use crate::polyline::PolyLine;
use crate::turn::TurnID;

verus! {

#[derive(Clone, Copy, Debug, PartialEq, Eq, Structural)]
pub enum TraverseDirection {
    Forward,
    Backward,
}

#[derive(Clone, Copy, Debug, PartialEq, Eq, Structural)]
pub enum TraverseKind {
    Lane(LaneID),
    Turn(TurnID),
}

impl TraverseKind {
    pub fn is_lane(&self) -> (r: bool)
        ensures
            r == (*self is Lane),
    {
        matches!(self, TraverseKind::Lane(_))
    }
}

/// `s` in reverse order.
pub open spec fn reversed<P>(s: Seq<P>) -> Seq<P> {
    Seq::new(s.len(), |i: int| s[s.len() - 1 - i])
}

/// A lane or a turn, traversed in a given direction.
#[derive(Clone, Copy, Debug, PartialEq, Eq, Structural)]
pub struct Traversable {
    pub kind: TraverseKind,
    pub dir: TraverseDirection,
}

impl Traversable {
    pub fn new(kind: TraverseKind, dir: TraverseDirection) -> (r: Self)
        ensures
            r == (Traversable { kind, dir }),
    {
        Traversable { kind, dir }
    }

    /// The lane or turn that this refers to exists in `map`.
    pub open spec fn spec_is_valid<P>(self, map: &RoadMap<P>) -> bool {
        match self.kind {
            TraverseKind::Lane(id) => id.0 < map.lanes@.len(),
            TraverseKind::Turn(id) => id.parent.0 < map.intersections@.len() && find_turn(
                map.intersections@[id.parent.0 as int].turns@,
                id,
            ) is Some,
        }
    }

    pub fn is_valid<P>(&self, map: &RoadMap<P>) -> (r: bool)
        ensures
            r == self.spec_is_valid(map),
    {
        match self.kind {
            TraverseKind::Lane(id) => id.0 < map.lanes.len(),
            TraverseKind::Turn(id) => id.parent.0 < map.intersections.len()
                && map.intersections[id.parent.0].find_turn(id).is_some(),
        }
    }

    /// The points of the lane or turn, in the order of traversal.
    pub open spec fn spec_points<P>(self, map: &RoadMap<P>) -> Seq<P>
        recommends
            self.spec_is_valid(map),
    {
        let raw = match self.kind {
            TraverseKind::Lane(id) => map.lanes@[id.0 as int].points@,
            TraverseKind::Turn(id) => {
                let turns = map.intersections@[id.parent.0 as int].turns@;
                turns[find_turn(turns, id)->0].points@
            },
        };
        match self.dir {
            TraverseDirection::Forward => raw,
            TraverseDirection::Backward => reversed(raw),
        }
    }

    /// Entry is open at time `t`: a lane lets agents in unless its control shows
    /// red or orange; a turn, once reached, is always open.
    pub open spec fn spec_can_pass<P>(self, t: int, lanes: Seq<Lane<P>>) -> bool {
        match self.kind {
            TraverseKind::Lane(id) => lanes[id.0 as int].control.behavior(t).spec_may_enter(),
            TraverseKind::Turn(_) => true,
        }
    }

    pub fn can_pass<P>(&self, time: u64, lanes: &Vec<Lane<P>>) -> (r: bool)
        requires
            self.kind is Lane ==> {
                let id = self.kind->Lane_0;
                id.0 < lanes@.len() && lanes@[id.0 as int].control.wf()
            },
        ensures
            r == self.spec_can_pass(time as int, lanes@),
    {
        match self.kind {
            TraverseKind::Lane(id) => lanes[id.0].control.get_behavior(time).may_enter(),
            TraverseKind::Turn(_) => true,
        }
    }
}

impl Traversable {
    /// Copies the points of the lane or turn, in the order of traversal.
    pub fn points<P: Copy>(&self, map: &RoadMap<P>) -> (r: PolyLine<P>)
        requires
            self.spec_is_valid(map),
        ensures
            r@ == self.spec_points(map),
    {
        let src: &PolyLine<P> = match self.kind {
            TraverseKind::Lane(id) => &map.lanes[id.0].points,
            TraverseKind::Turn(id) => {
                let k = map.intersections[id.parent.0].find_turn(id);
                match k {
                    Some(k) => &map.intersections[id.parent.0].turns[k].points,
                    None => {
                        assert(false);
                        &map.lanes[0].points
                    },
                }
            },
        };
        let s = src.as_slice();
        let mut r: PolyLine<P> = PolyLine::with_capacity(s.len());
        match self.dir {
            TraverseDirection::Forward => {
                r.extend(s);
                assert(Seq::<P>::empty() + s@ =~= s@);
            },
            TraverseDirection::Backward => {
                let mut i: usize = s.len();
                while i > 0
                    invariant
                        i <= s@.len(),
                        r@ =~= reversed(s@).subrange(0, s@.len() - i),
                    decreases i,
                {
                    i = i - 1;
                    r.push(s[i]);
                }
                assert(reversed(s@).subrange(0, s@.len() as int) =~= reversed(s@));
            },
        }
        r
    }
}

} // verus!
