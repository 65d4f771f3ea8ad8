use vstd::prelude::*;
use crate::polyline::PolyLine;
use crate::traffic::TrafficControl;
use crate::turn::{Turn, TurnID};

verus! {

/// Identifier of a lane: its index in the lane arena.
#[derive(Clone, Copy, Debug, PartialEq, Eq, Structural)]
pub struct LaneID(pub usize);

/// Identifier of a road: its index in the road arena.
#[derive(Clone, Copy, Debug, PartialEq, Eq, Structural)]
pub struct RoadID(pub usize);

/// Identifier of an intersection: its index in the intersection arena.
#[derive(Clone, Copy, Debug, PartialEq, Eq, Structural)]
pub struct IntersectionID(pub usize);

/// One full turn in the angle unit used for road headings
/// (ten-thousandths of a degree).
pub const FULL_TURN: u32 = 3_600_000;

/// The absolute angle between two headings, in `[0, FULL_TURN / 2]`.
pub open spec fn angle_between(a: int, b: int) -> int {
    let d = (a - b) % (FULL_TURN as int);
    if d <= FULL_TURN - d {
        d
    } else {
        FULL_TURN - d
    }
}

/// Computes the absolute angle between two headings.
pub fn heading_angle(a: u32, b: u32) -> (r: u32)
    ensures
        r == angle_between(a as int, b as int),
        r <= FULL_TURN / 2,
{
    let x = a % FULL_TURN;
    let y = b % FULL_TURN;
    let d = if x >= y {
        x - y
    } else {
        x + FULL_TURN - y
    };
    proof {
        vstd::arithmetic::div_mod::lemma_sub_mod_noop(a as int, b as int, FULL_TURN as int);
        if x >= y {
            vstd::arithmetic::div_mod::lemma_small_mod((x - y) as nat, FULL_TURN as nat);
        } else {
            vstd::arithmetic::div_mod::lemma_mod_add_multiples_vanish(x - y, FULL_TURN as int);
            vstd::arithmetic::div_mod::lemma_small_mod((x + FULL_TURN - y) as nat, FULL_TURN as nat);
        }
    }
    if d <= FULL_TURN - d {
        d
    } else {
        FULL_TURN - d
    }
}

#[derive(Clone, Copy, Debug, PartialEq, Eq, Structural)]
pub enum LaneKind {
    Driving,
    Biking,
    Bus,
    Construction,
    Walking,
}

impl LaneKind {
    pub open spec fn spec_needs_light(self) -> bool {
        self is Driving || self is Biking || self is Bus
    }

    /// Whether lanes of this kind are governed by the intersection's traffic control.
    pub fn needs_light(self) -> (r: bool)
        ensures
            r == self.spec_needs_light(),
    {
        matches!(self, LaneKind::Driving | LaneKind::Biking | LaneKind::Bus)
    }
}

/// A lane of a road, running from intersection `src` to intersection `dst`.
#[derive(Debug)]
pub struct Lane<P> {
    pub id: LaneID,
    pub parent: RoadID,
    pub kind: LaneKind,
    pub control: TrafficControl,
    pub src: IntersectionID,
    pub dst: IntersectionID,
    pub points: PolyLine<P>,
}

impl<P> Lane<P> {
    /// This lane with its control replaced and every other field kept.
    pub open spec fn with_control(self, c: TrafficControl) -> Lane<P> {
        Lane { control: c, ..self }
    }
}

/// A road between two intersections, with its lanes in each direction and its
/// heading as seen from each end.
#[derive(Debug)]
pub struct Road {
    pub id: RoadID,
    pub src: IntersectionID,
    pub dst: IntersectionID,
    /// Lanes running from `src` to `dst`.
    pub lanes_forward: Vec<LaneID>,
    /// Lanes running from `dst` to `src`.
    pub lanes_backward: Vec<LaneID>,
    /// Heading of the road leaving `src`.
    pub src_heading: u32,
    /// Heading of the road leaving `dst`.
    pub dst_heading: u32,
}

impl Road {
    pub open spec fn spec_incoming_lanes_to(&self, inter: IntersectionID) -> Seq<LaneID> {
        if inter == self.dst {
            self.lanes_forward@
        } else {
            self.lanes_backward@
        }
    }

    /// The lanes of this road that arrive at `inter`.
    pub fn incoming_lanes_to(&self, inter: IntersectionID) -> (r: &Vec<LaneID>)
        ensures
            r@ == self.spec_incoming_lanes_to(inter),
    {
        if inter == self.dst {
            &self.lanes_forward
        } else {
            &self.lanes_backward
        }
    }

    pub open spec fn spec_heading_from(&self, inter: IntersectionID) -> u32 {
        if inter == self.src {
            self.src_heading
        } else {
            self.dst_heading
        }
    }

    /// The heading of this road leaving `inter`.
    pub fn heading_from(&self, inter: IntersectionID) -> (r: u32)
        ensures
            r == self.spec_heading_from(inter),
    {
        if inter == self.src {
            self.src_heading
        } else {
            self.dst_heading
        }
    }
}

/// An intersection with the roads that meet there and its turns.
#[derive(Debug)]
pub struct Intersection<P> {
    pub id: IntersectionID,
    pub roads: Vec<RoadID>,
    pub turns: Vec<Turn<P>>,
}

/// Road arena well-formedness as seen from the lanes: each road sits at its own
/// index and each of its lanes exists and names it as parent.
pub open spec fn roads_wf<P>(roads: Seq<Road>, lanes: Seq<Lane<P>>) -> bool {
    forall|r: int|
        #![trigger roads[r]]
        0 <= r < roads.len() ==> {
            &&& roads[r].id == RoadID(r as usize)
            &&& forall|j: int|
                0 <= j < roads[r].lanes_forward@.len() ==> {
                    let l = #[trigger] roads[r].lanes_forward@[j];
                    l.0 < lanes.len() && lanes[l.0 as int].parent == RoadID(r as usize)
                }
            &&& forall|j: int|
                0 <= j < roads[r].lanes_backward@.len() ==> {
                    let l = #[trigger] roads[r].lanes_backward@[j];
                    l.0 < lanes.len() && lanes[l.0 as int].parent == RoadID(r as usize)
                }
        }
}


/// The road graph: arenas of lanes, roads and intersections, each element
/// at the index its identifier names.
#[derive(Debug)]
pub struct RoadMap<P> {
    pub lanes: Vec<Lane<P>>,
    pub roads: Vec<Road>,
    pub intersections: Vec<Intersection<P>>,
}

impl<P> RoadMap<P> {
    pub open spec fn wf(&self) -> bool {
        &&& forall|i: int|
            0 <= i < self.lanes@.len() ==> {
                let l = #[trigger] self.lanes@[i];
                &&& l.id == LaneID(i as usize)
                &&& l.control.wf()
                &&& l.dst.0 < self.intersections@.len()
            }
        &&& forall|i: int|
            0 <= i < self.intersections@.len() ==> (#[trigger] self.intersections@[i]).id
                == IntersectionID(i as usize)
        &&& forall|i: int, k: int|
            0 <= i < self.intersections@.len() && 0 <= k < self.intersections@[i].turns@.len() ==> {
                let t = #[trigger] self.intersections@[i].turns@[k];
                &&& t.id.parent == IntersectionID(i as usize)
                &&& t.id.src.0 < self.lanes@.len()
                &&& t.id.dst.0 < self.lanes@.len()
            }
    }

    pub fn lanes(&self) -> (r: &Vec<Lane<P>>)
        ensures
            r@ == self.lanes@,
    {
        &self.lanes
    }

    pub fn intersections(&self) -> (r: &Vec<Intersection<P>>)
        ensures
            r@ == self.intersections@,
    {
        &self.intersections
    }
}

/// Index of the first turn of `turns` with identifier `id`, if any.
pub open spec fn find_turn<P>(turns: Seq<Turn<P>>, id: TurnID) -> Option<int>
    decreases turns.len(),
{
    if turns.len() == 0 {
        None
    } else {
        match find_turn(turns.drop_last(), id) {
            Some(k) => Some(k),
            None => if turns.last().id == id {
                Some(turns.len() - 1)
            } else {
                None
            },
        }
    }
}

pub(crate) proof fn lemma_find_turn<P>(turns: Seq<Turn<P>>, id: TurnID)
    ensures
        find_turn(turns, id) is Some ==> {
            let k = find_turn(turns, id)->0;
            0 <= k < turns.len() && turns[k].id == id
        },
        find_turn(turns, id) is None ==> forall|k: int| 0 <= k < turns.len() ==> (#[trigger] turns[k]).id != id,
    decreases turns.len(),
{
    if turns.len() > 0 {
        lemma_find_turn(turns.drop_last(), id);
        assert forall|k: int| 0 <= k < turns.len() - 1 implies #[trigger] turns[k] == turns.drop_last()[k] by {}
    }
}

impl<P> Intersection<P> {
    /// Finds the turn with identifier `id` among this intersection's turns.
    pub fn find_turn(&self, id: TurnID) -> (r: Option<usize>)
        ensures
            opt_usize(r) == find_turn(self.turns@, id),
            r is Some ==> r->0 < self.turns@.len() && self.turns@[r->0 as int].id == id,
    {
        let mut i: usize = 0;
        while i < self.turns.len()
            invariant
                i <= self.turns@.len(),
                find_turn(self.turns@.subrange(0, i as int), id) is None,
            decreases self.turns@.len() - i,
        {
            assert(self.turns@.subrange(0, i + 1).drop_last() =~= self.turns@.subrange(0, i as int));
            if self.turns[i].id == id {
                proof {
                    lemma_find_turn_prefix(self.turns@, id, i as int);
                }
                return Some(i);
            }
            i = i + 1;
        }
        assert(self.turns@.subrange(0, i as int) =~= self.turns@);
        None
    }

    /// The turns of this intersection that start at lane `lane`.
    pub fn turns_from(&self, lane: LaneID) -> (r: Vec<TurnID>)
        ensures
            r@ == turns_from(self.turns@, lane),
    {
        let mut r: Vec<TurnID> = Vec::new();
        let mut i: usize = 0;
        while i < self.turns.len()
            invariant
                i <= self.turns@.len(),
                r@ == turns_from(self.turns@.subrange(0, i as int), lane),
            decreases self.turns@.len() - i,
        {
            assert(self.turns@.subrange(0, i + 1).drop_last() =~= self.turns@.subrange(0, i as int));
            if self.turns[i].id.src == lane {
                r.push(self.turns[i].id);
            }
            i = i + 1;
        }
        assert(self.turns@.subrange(0, i as int) =~= self.turns@);
        r
    }
}

/// The identifiers of the turns among `turns` that start at lane `lane`, in order.
pub open spec fn turns_from<P>(turns: Seq<Turn<P>>, lane: LaneID) -> Seq<TurnID>
    decreases turns.len(),
{
    if turns.len() == 0 {
        Seq::empty()
    } else {
        let rest = turns_from(turns.drop_last(), lane);
        if turns.last().id.src == lane {
            rest.push(turns.last().id)
        } else {
            rest
        }
    }
}

pub open spec fn opt_usize(o: Option<usize>) -> Option<int> {
    match o {
        Some(d) => Some(d as int),
        None => None,
    }
}

proof fn lemma_find_turn_prefix<P>(turns: Seq<Turn<P>>, id: TurnID, i: int)
    requires
        0 <= i < turns.len(),
        turns[i].id == id,
        find_turn(turns.subrange(0, i), id) is None,
    ensures
        find_turn(turns, id) == Some(i),
    decreases turns.len(),
{
    if turns.len() - 1 == i {
        assert(turns.drop_last() =~= turns.subrange(0, i));
    } else {
        assert(turns.drop_last().subrange(0, i) =~= turns.subrange(0, i));
        lemma_find_turn_prefix(turns.drop_last(), id, i);
    }
}

} // verus!
