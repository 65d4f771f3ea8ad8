use vstd::prelude::*;
use crate::map::{
    angle_between, heading_angle, roads_wf, Intersection, IntersectionID, Lane, LaneID, Road,
    RoadID,
};
use crate::rng::{gen_index, rng_from_seed};
use crate::traffic::{TrafficControl, TrafficLightSchedule};

verus! {

/// Length of the green phase of an assigned light, in seconds.
pub const GREEN_LENGTH: usize = 10;

/// Length of the orange phase of an assigned light, in seconds.
pub const ORANGE_LENGTH: usize = 4;

/// Length of the red phase of an assigned light, in seconds: as long as
/// green and orange together, so that two alternating groups share the cycle.
pub const RED_LENGTH: usize = 14;

/// How an intersection's incoming lanes are controlled.
#[derive(Clone, Copy, Debug, PartialEq, Eq, Structural)]
pub enum LightPolicy {
    NoLights,
    StopSigns,
    Lights,
    Smart,
}

impl Default for LightPolicy {
    fn default() -> (r: Self)
        ensures
            r == LightPolicy::Smart,
    {
        LightPolicy::Smart
    }
}

/// The lanes among `ids` whose kind is governed by traffic control, in order.
pub open spec fn relevant_lanes<P>(ids: Seq<LaneID>, lanes: Seq<Lane<P>>) -> Seq<LaneID>
    decreases ids.len(),
{
    if ids.len() == 0 {
        Seq::empty()
    } else {
        let rest = relevant_lanes(ids.drop_last(), lanes);
        if lanes[ids.last().0 as int].kind.spec_needs_light() {
            rest.push(ids.last())
        } else {
            rest
        }
    }
}

/// The road-groups of an intersection: for each of `road_ids` in order, the
/// road and its relevant lanes arriving at `inter`, leaving out roads with none.
pub open spec fn road_groups<P>(
    road_ids: Seq<RoadID>,
    inter: IntersectionID,
    roads: Seq<Road>,
    lanes: Seq<Lane<P>>,
) -> Seq<(RoadID, Seq<LaneID>)>
    decreases road_ids.len(),
{
    if road_ids.len() == 0 {
        Seq::empty()
    } else {
        let rest = road_groups(road_ids.drop_last(), inter, roads, lanes);
        let r = road_ids.last();
        let g = relevant_lanes(roads[r.0 as int].spec_incoming_lanes_to(inter), lanes);
        if g.len() > 0 {
            rest.push((r, g))
        } else {
            rest
        }
    }
}

/// Of three road-groups in cyclic order, the one to get stop signs: the group
/// left out of the adjacent pair `(i, i + 1)` whose angle `a_i` is largest,
/// the first such pair on ties; none when every angle is zero.
pub open spec fn demoted_group(a0: int, a1: int, a2: int) -> Option<int> {
    let p0: Option<int> = if a0 > 0 { Some(2) } else { None };
    let m0 = if a0 > 0 { a0 } else { 0 };
    let p1 = if a1 > m0 { Some(0) } else { p0 };
    let m1 = if a1 > m0 { a1 } else { m0 };
    if a2 > m1 { Some(1) } else { p1 }
}

/// The angle between the roads of groups `i` and `i + 1` (cyclically, of three).
pub open spec fn pair_angle(
    groups: Seq<(RoadID, Seq<LaneID>)>,
    i: int,
    inter: IntersectionID,
    roads: Seq<Road>,
) -> int {
    angle_between(
        roads[groups[i].0.0 as int].spec_heading_from(inter) as int,
        roads[groups[(i + 1) % 3].0.0 as int].spec_heading_from(inter) as int,
    )
}

/// `c` is the light of road-group `gi`: the fixed cycle, with the base offset
/// shifted by half the cycle on even groups.
pub open spec fn is_group_light(c: TrafficControl, gi: int, offset: int) -> bool {
    &&& c is Light
    &&& c->Light_0.wf()
    &&& c->Light_0.spec_green() == GREEN_LENGTH
    &&& c->Light_0.spec_orange() == ORANGE_LENGTH
    &&& c->Light_0.spec_red() == RED_LENGTH
    &&& c->Light_0.spec_offset() == if gi % 2 == 0 {
        GREEN_LENGTH + ORANGE_LENGTH + offset
    } else {
        offset
    }
}


/// Every relevant lane is one of `ids`, and of a kind that needs control.
proof fn lemma_relevant_lanes<P>(ids: Seq<LaneID>, lanes: Seq<Lane<P>>)
    ensures
        forall|j: int|
            0 <= j < relevant_lanes(ids, lanes).len() ==> {
                &&& ids.contains(#[trigger] relevant_lanes(ids, lanes)[j])
                &&& lanes[relevant_lanes(ids, lanes)[j].0 as int].kind.spec_needs_light()
            },
    decreases ids.len(),
{
    if ids.len() > 0 {
        lemma_relevant_lanes(ids.drop_last(), lanes);
        let rest = relevant_lanes(ids.drop_last(), lanes);
        assert forall|j: int| 0 <= j < rest.len() implies ids.contains(#[trigger] rest[j]) by {
            let m = choose|m: int| 0 <= m < ids.drop_last().len() && ids.drop_last()[m] == rest[j];
            assert(ids[m] == rest[j]);
        }
        assert(ids[ids.len() - 1] == ids.last());
    }
}

/// Each road-group comes from a distinct road of `road_ids`, is not empty, and
/// holds that road's relevant lanes arriving at `inter`.
proof fn lemma_road_groups<P>(
    road_ids: Seq<RoadID>,
    inter: IntersectionID,
    roads: Seq<Road>,
    lanes: Seq<Lane<P>>,
)
    requires
        road_ids.no_duplicates(),
    ensures
        forall|k: int|
            0 <= k < road_groups(road_ids, inter, roads, lanes).len() ==> {
                let g = #[trigger] road_groups(road_ids, inter, roads, lanes)[k];
                &&& road_ids.contains(g.0)
                &&& g.1.len() > 0
                &&& g.1 == relevant_lanes(roads[g.0.0 as int].spec_incoming_lanes_to(inter), lanes)
            },
        forall|k1: int, k2: int|
            0 <= k1 < k2 < road_groups(road_ids, inter, roads, lanes).len() ==> (#[trigger] road_groups(
                road_ids,
                inter,
                roads,
                lanes,
            )[k1]).0 != (#[trigger] road_groups(road_ids, inter, roads, lanes)[k2]).0,
    decreases road_ids.len(),
{
    if road_ids.len() > 0 {
        let prefix = road_ids.drop_last();
        assert(prefix.no_duplicates());
        lemma_road_groups(prefix, inter, roads, lanes);
        let rest = road_groups(prefix, inter, roads, lanes);
        let groups = road_groups(road_ids, inter, roads, lanes);
        assert forall|k: int| 0 <= k < rest.len() implies road_ids.contains(#[trigger] rest[k].0)
            && rest[k].0 != road_ids.last() by {
            let m = choose|m: int| 0 <= m < prefix.len() && prefix[m] == rest[k].0;
            assert(road_ids[m] == rest[k].0);
            assert(road_ids.last() == road_ids[road_ids.len() - 1]);
        }
        assert(road_ids.contains(road_ids.last())) by {
            assert(road_ids[road_ids.len() - 1] == road_ids.last());
        }
        assert forall|k: int| 0 <= k < rest.len() implies #[trigger] groups[k] == rest[k] by {}
    }
}

/// Computes the relevant lanes of `road` arriving at `inter`.
fn relevant_incoming<P>(road: &Road, inter: IntersectionID, lanes: &Vec<Lane<P>>) -> (r: Vec<LaneID>)
    requires
        forall|j: int|
            0 <= j < road.spec_incoming_lanes_to(inter).len() ==> (#[trigger] road.spec_incoming_lanes_to(
                inter,
            )[j]).0 < lanes@.len(),
    ensures
        r@ == relevant_lanes(road.spec_incoming_lanes_to(inter), lanes@),
{
    let ids = road.incoming_lanes_to(inter);
    let mut r: Vec<LaneID> = Vec::new();
    let mut i: usize = 0;
    while i < ids.len()
        invariant
            i <= ids@.len(),
            ids@ == road.spec_incoming_lanes_to(inter),
            forall|j: int| 0 <= j < ids@.len() ==> (#[trigger] ids@[j]).0 < lanes@.len(),
            r@ == relevant_lanes(ids@.subrange(0, i as int), lanes@),
        decreases ids@.len() - i,
    {
        let id = ids[i];
        assert(ids@.subrange(0, i + 1).drop_last() =~= ids@.subrange(0, i as int));
        if lanes[id.0].kind.needs_light() {
            r.push(id);
        }
        i = i + 1;
    }
    assert(ids@.subrange(0, ids@.len() as int) =~= ids@);
    r
}

/// Requirements on the map around `inter` for the assignment to be total.
pub open spec fn apply_requires<P>(inter: &Intersection<P>, lanes: Seq<Lane<P>>, roads: Seq<Road>) -> bool {
    &&& roads_wf(roads, lanes)
    &&& inter.roads@.no_duplicates()
    &&& forall|k: int| 0 <= k < inter.roads@.len() ==> (#[trigger] inter.roads@[k]).0 < roads.len()
}

/// Groups the relevant incoming lanes of `inter` by road.
fn compute_groups<P>(inter: &Intersection<P>, lanes: &Vec<Lane<P>>, roads: &Vec<Road>) -> (r: Vec<
    (RoadID, Vec<LaneID>),
>)
    requires
        apply_requires(inter, lanes@, roads@),
    ensures
        r@.len() == road_groups(inter.roads@, inter.id, roads@, lanes@).len(),
        forall|k: int|
            0 <= k < r@.len() ==> (#[trigger] r@[k]).0 == road_groups(
                inter.roads@,
                inter.id,
                roads@,
                lanes@,
            )[k].0 && r@[k].1@ == road_groups(inter.roads@, inter.id, roads@, lanes@)[k].1,
{
    let mut r: Vec<(RoadID, Vec<LaneID>)> = Vec::new();
    let mut i: usize = 0;
    while i < inter.roads.len()
        invariant
            i <= inter.roads@.len(),
            apply_requires(inter, lanes@, roads@),
            r@.len() == road_groups(inter.roads@.subrange(0, i as int), inter.id, roads@, lanes@).len(),
            forall|k: int|
                0 <= k < r@.len() ==> (#[trigger] r@[k]).0 == road_groups(
                    inter.roads@.subrange(0, i as int),
                    inter.id,
                    roads@,
                    lanes@,
                )[k].0 && r@[k].1@ == road_groups(
                    inter.roads@.subrange(0, i as int),
                    inter.id,
                    roads@,
                    lanes@,
                )[k].1,
        decreases inter.roads@.len() - i,
    {
        let rid = inter.roads[i];
        assert(inter.roads@.subrange(0, i + 1).drop_last() =~= inter.roads@.subrange(0, i as int));
        assert(inter.roads@.subrange(0, i + 1).last() == inter.roads@[i as int]);
        let road = &roads[rid.0];
        proof {
            assert forall|j: int|
                0 <= j < road.spec_incoming_lanes_to(inter.id).len() implies (
                #[trigger] road.spec_incoming_lanes_to(inter.id)[j]).0 < lanes@.len() by {
                if inter.id == road.dst {
                    assert(road.lanes_forward@[j] == road.spec_incoming_lanes_to(inter.id)[j]);
                } else {
                    assert(road.lanes_backward@[j] == road.spec_incoming_lanes_to(inter.id)[j]);
                }
            }
        }
        let g = relevant_incoming(road, inter.id, lanes);
        if g.len() > 0 {
            r.push((rid, g));
        }
        i = i + 1;
    }
    assert(inter.roads@.subrange(0, inter.roads@.len() as int) =~= inter.roads@);
    r
}

impl LightPolicy {
    /// Whether `c` is the control that this policy gives road-group `gi` out of
    /// `n`, with `demoted` the group picked among three and `offset` the base
    /// phase of lights.
    pub open spec fn group_control(
        self,
        n: int,
        gi: int,
        demoted: Option<int>,
        offset: int,
        c: TrafficControl,
    ) -> bool {
        match self {
            LightPolicy::NoLights => c is Always,
            LightPolicy::StopSigns => c is StopSign,
            LightPolicy::Smart => if n <= 2 {
                c is Always
            } else if n == 3 {
                if demoted == Some(gi) {
                    c is StopSign
                } else {
                    c is Always
                }
            } else {
                is_group_light(c, gi, offset)
            },
            LightPolicy::Lights => is_group_light(c, gi, offset),
        }
    }
}


pub open spec fn opt_int(o: Option<usize>) -> Option<int> {
    match o {
        Some(d) => Some(d as int),
        None => None,
    }
}

/// Lane index `i` is among the lanes of some road-group.
pub open spec fn in_some_group(groups: Seq<(RoadID, Seq<LaneID>)>, i: int) -> bool {
    exists|k: int, j: int|
        0 <= k < groups.len() && 0 <= j < groups[k].1.len() && (#[trigger] groups[k].1[j]).0 == i
}

/// Picks, among three road-groups, the one to demote to stop signs.
fn pick_demoted(groups: &Vec<(RoadID, Vec<LaneID>)>, inter: IntersectionID, roads: &Vec<Road>) -> (r:
    Option<usize>)
    requires
        groups@.len() == 3,
        forall|k: int| 0 <= k < 3 ==> (#[trigger] groups@[k]).0.0 < roads@.len(),
    ensures
        opt_int(r) == demoted_group(
            angle_between(
                roads@[groups@[0].0.0 as int].spec_heading_from(inter) as int,
                roads@[groups@[1].0.0 as int].spec_heading_from(inter) as int,
            ),
            angle_between(
                roads@[groups@[1].0.0 as int].spec_heading_from(inter) as int,
                roads@[groups@[2].0.0 as int].spec_heading_from(inter) as int,
            ),
            angle_between(
                roads@[groups@[2].0.0 as int].spec_heading_from(inter) as int,
                roads@[groups@[0].0.0 as int].spec_heading_from(inter) as int,
            ),
        ),
{
    let h0 = roads[groups[0].0.0].heading_from(inter);
    let h1 = roads[groups[1].0.0].heading_from(inter);
    let h2 = roads[groups[2].0.0].heading_from(inter);
    let angles = [heading_angle(h0, h1), heading_angle(h1, h2), heading_angle(h2, h0)];
    let mut max_ang: u32 = 0;
    let mut perp: Option<usize> = None;
    if angles[0] > max_ang {
        max_ang = angles[0];
        perp = Some(2);
    }
    if angles[1] > max_ang {
        max_ang = angles[1];
        perp = Some(0);
    }
    if angles[2] > max_ang {
        perp = Some(1);
    }
    perp
}

impl LightPolicy {
    /// The control this policy gives road-group `gi` out of `n`.
    fn control_for(self, n: usize, gi: usize, demoted: Option<usize>, offset: usize) -> (c:
        TrafficControl)
        requires
            offset + GREEN_LENGTH + ORANGE_LENGTH <= usize::MAX,
        ensures
            self.group_control(n as int, gi as int, opt_int(demoted), offset as int, c),
            c.wf(),
    {
        let light = TrafficControl::Light(
            TrafficLightSchedule::from_basic(
                GREEN_LENGTH,
                ORANGE_LENGTH,
                RED_LENGTH,
                if gi % 2 == 0 {
                    GREEN_LENGTH + ORANGE_LENGTH + offset
                } else {
                    offset
                },
            ),
        );
        match self {
            LightPolicy::NoLights => TrafficControl::Always,
            LightPolicy::StopSigns => TrafficControl::StopSign,
            LightPolicy::Smart => {
                if n <= 2 {
                    TrafficControl::Always
                } else if n == 3 {
                    match demoted {
                        Some(d) if d == gi => TrafficControl::StopSign,
                        _ => TrafficControl::Always,
                    }
                } else {
                    light
                }
            },
            LightPolicy::Lights => light,
        }
    }

    /// The group demoted to stop signs, when there are exactly three.
    pub open spec fn spec_demoted<P>(inter: &Intersection<P>, lanes: Seq<Lane<P>>, roads: Seq<Road>) -> Option<int> {
        let groups = road_groups(inter.roads@, inter.id, roads, lanes);
        if groups.len() == 3 {
            demoted_group(
                pair_angle(groups, 0, inter.id, roads),
                pair_angle(groups, 1, inter.id, roads),
                pair_angle(groups, 2, inter.id, roads),
            )
        } else {
            None
        }
    }

    /// `new_lanes` is `old_lanes` after this policy assigned the controls of
    /// `inter`'s incoming lanes, with `offset` the base phase of lights: every
    /// lane of road-group `k` has the control of group `k`, every other lane
    /// keeps its control, and nothing else about a lane changes.
    pub open spec fn assigned<P>(
        self,
        inter: &Intersection<P>,
        roads: Seq<Road>,
        old_lanes: Seq<Lane<P>>,
        new_lanes: Seq<Lane<P>>,
        offset: int,
    ) -> bool {
        let groups = road_groups(inter.roads@, inter.id, roads, old_lanes);
        let n = groups.len() as int;
        let dem = Self::spec_demoted(inter, old_lanes, roads);
        &&& new_lanes.len() == old_lanes.len()
        &&& forall|i: int|
            0 <= i < new_lanes.len() ==> #[trigger] new_lanes[i] == old_lanes[i].with_control(
                new_lanes[i].control,
            )
        &&& forall|k: int, j: int|
            0 <= k < n && 0 <= j < groups[k].1.len() ==> self.group_control(
                n,
                k,
                dem,
                offset,
                new_lanes[(#[trigger] groups[k].1[j]).0 as int].control,
            )
        &&& forall|i: int|
            0 <= i < new_lanes.len() && !in_some_group(groups, i) ==> (#[trigger] new_lanes[i]).control
                == old_lanes[i].control
    }

    /// Assigns the controls of `inter`'s incoming lanes, with `offset` the base
    /// phase of lights.
    pub fn apply_with_offset<P>(
        self,
        inter: &Intersection<P>,
        lanes: &mut Vec<Lane<P>>,
        roads: &Vec<Road>,
        offset: usize,
    )
        requires
            apply_requires(inter, old(lanes)@, roads@),
            offset + GREEN_LENGTH + ORANGE_LENGTH <= usize::MAX,
        ensures
            self.assigned(inter, roads@, old(lanes)@, final(lanes)@, offset as int),
    {
        let ghost old_lanes = lanes@;
        let ghost groups = road_groups(inter.roads@, inter.id, roads@, old_lanes);
        let ghost dem = Self::spec_demoted(inter, old_lanes, roads@);
        let gs = compute_groups(inter, lanes, roads);
        let n = gs.len();
        proof {
            lemma_road_groups(inter.roads@, inter.id, roads@, old_lanes);
            assert forall|k: int, j: int| 0 <= k < n && 0 <= j < groups[k].1.len() implies (
            #[trigger] groups[k].1[j]).0 < old_lanes.len() && old_lanes[groups[k].1[j].0 as int].parent
                == groups[k].0 by {
                let g = groups[k];
                let rr = g.0.0 as int;
                let ids = roads@[rr].spec_incoming_lanes_to(inter.id);
                lemma_relevant_lanes(ids, old_lanes);
                assert(ids.contains(g.1[j]));
                let m = choose|m: int| 0 <= m < ids.len() && ids[m] == g.1[j];
                assert(inter.roads@.contains(g.0));
                let q = choose|q: int| 0 <= q < inter.roads@.len() && inter.roads@[q] == g.0;
                assert(inter.roads@[q].0 < roads@.len());
                if inter.id == roads@[rr].dst {
                    assert(roads@[rr].lanes_forward@[m] == ids[m]);
                } else {
                    assert(roads@[rr].lanes_backward@[m] == ids[m]);
                }
            }
        }
        let demoted = if n == 3 && self == LightPolicy::Smart {
            proof {
                assert forall|k: int| 0 <= k < 3 implies (#[trigger] gs@[k]).0.0 < roads@.len() by {
                    assert(inter.roads@.contains(groups[k].0));
                    let q = choose|q: int| 0 <= q < inter.roads@.len() && inter.roads@[q] == groups[k].0;
                    assert(inter.roads@[q].0 < roads@.len());
                }
                assert((1int + 1) % 3 == 2);
                assert((2int + 1) % 3 == 0);
            }
            pick_demoted(&gs, inter.id, roads)
        } else {
            None
        };
        assert(self == LightPolicy::Smart && n == 3 ==> opt_int(demoted) == dem);
        let mut gi: usize = 0;
        while gi < n
            invariant
                gi <= n,
                n == groups.len(),
                gs@.len() == n,
                forall|k: int|
                    0 <= k < n ==> (#[trigger] gs@[k]).0 == groups[k].0 && gs@[k].1@ == groups[k].1,
                forall|k: int, j: int|
                    0 <= k < n && 0 <= j < groups[k].1.len() ==> (#[trigger] groups[k].1[j]).0
                        < old_lanes.len() && old_lanes[groups[k].1[j].0 as int].parent == groups[k].0,
                forall|k1: int, k2: int|
                    0 <= k1 < k2 < n ==> (#[trigger] groups[k1]).0 != (#[trigger] groups[k2]).0,
                self == LightPolicy::Smart && n == 3 ==> opt_int(demoted) == dem,
                offset + GREEN_LENGTH + ORANGE_LENGTH <= usize::MAX,
                lanes@.len() == old_lanes.len(),
                forall|i: int|
                    0 <= i < lanes@.len() ==> #[trigger] lanes@[i] == old_lanes[i].with_control(
                        lanes@[i].control,
                    ),
                forall|k: int, j: int|
                    0 <= k < gi && 0 <= j < groups[k].1.len() ==> self.group_control(
                        n as int,
                        k,
                        dem,
                        offset as int,
                        lanes@[(#[trigger] groups[k].1[j]).0 as int].control,
                    ),
                forall|i: int|
                    0 <= i < lanes@.len() && (forall|k: int, j: int|
                        0 <= k < gi && 0 <= j < groups[k].1.len() ==> (#[trigger] groups[k].1[j]).0
                            != i) ==> (#[trigger] lanes@[i]).control == old_lanes[i].control,
            decreases n - gi,
        {
            let c = self.control_for(n, gi, demoted, offset);
            assert(self.group_control(n as int, gi as int, dem, offset as int, c));
            let ids = &gs[gi].1;
            let mut j: usize = 0;
            while j < ids.len()
                invariant
                    gi < n,
                    n == groups.len(),
                    j <= ids@.len(),
                    ids@ == groups[gi as int].1,
                    forall|k: int, j: int|
                        0 <= k < n && 0 <= j < groups[k].1.len() ==> (#[trigger] groups[k].1[j]).0
                            < old_lanes.len() && old_lanes[groups[k].1[j].0 as int].parent
                            == groups[k].0,
                    forall|k1: int, k2: int|
                        0 <= k1 < k2 < n ==> (#[trigger] groups[k1]).0 != (#[trigger] groups[k2]).0,
                    self.group_control(n as int, gi as int, dem, offset as int, c),
                    lanes@.len() == old_lanes.len(),
                    forall|i: int|
                        0 <= i < lanes@.len() ==> #[trigger] lanes@[i] == old_lanes[i].with_control(
                            lanes@[i].control,
                        ),
                    forall|k: int, j: int|
                        0 <= k < gi && 0 <= j < groups[k].1.len() ==> self.group_control(
                            n as int,
                            k,
                            dem,
                            offset as int,
                            lanes@[(#[trigger] groups[k].1[j]).0 as int].control,
                        ),
                    forall|jj: int| 0 <= jj < j ==> lanes@[(#[trigger] ids@[jj]).0 as int].control == c,
                    forall|i: int|
                        0 <= i < lanes@.len() && (forall|k: int, j: int|
                            0 <= k < gi && 0 <= j < groups[k].1.len() ==> (#[trigger] groups[k].1[j]).0
                                != i) && (forall|jj: int| 0 <= jj < j ==> (#[trigger] ids@[jj]).0 != i)
                            ==> (#[trigger] lanes@[i]).control == old_lanes[i].control,
                decreases ids@.len() - j,
            {
                let l = ids[j];
                proof {
                    assert(groups[gi as int].1[j as int] == l);
                    assert forall|k: int, jx: int|
                        0 <= k < gi && 0 <= jx < groups[k].1.len() implies (
                        #[trigger] groups[k].1[jx]).0 != l.0 by {
                        if groups[k].1[jx].0 == l.0 {
                            assert(groups[k].0 != groups[gi as int].0);
                        }
                    }
                }
                lanes[l.0].control = c;
                j = j + 1;
            }
            proof {
                assert forall|jx: int| 0 <= jx < groups[gi as int].1.len() implies lanes@[(
                #[trigger] groups[gi as int].1[jx]).0 as int].control == c by {
                    assert(ids@[jx] == groups[gi as int].1[jx]);
                }
                assert forall|i: int|
                    0 <= i < lanes@.len() && (forall|k: int, j: int|
                        0 <= k < gi + 1 && 0 <= j < groups[k].1.len() ==> (#[trigger] groups[k].1[j]).0
                            != i) implies (#[trigger] lanes@[i]).control == old_lanes[i].control by {
                    assert forall|jj: int| 0 <= jj < ids@.len() implies (#[trigger] ids@[jj]).0 != i by {
                        assert(ids@[jj] == groups[gi as int].1[jj]);
                    }
                }
            }
            gi = gi + 1;
        }
        proof {
            assert forall|i: int|
                0 <= i < lanes@.len() && !in_some_group(groups, i) implies (
                #[trigger] lanes@[i]).control == old_lanes[i].control by {
                assert forall|k: int, j: int|
                    0 <= k < n && 0 <= j < groups[k].1.len() implies (
                    #[trigger] groups[k].1[j]).0 != i by {
                    if groups[k].1[j].0 == i {
                        assert(in_some_group(groups, i));
                    }
                }
            }
        }
    }

    /// Assigns the controls of `inter`'s incoming lanes. The base phase of
    /// lights is drawn from a generator seeded with the intersection's
    /// identifier, so that it is reproducible but differs between intersections.
    pub fn apply<P>(self, inter: &Intersection<P>, lanes: &mut Vec<Lane<P>>, roads: &Vec<Road>)
        requires
            apply_requires(inter, old(lanes)@, roads@),
        ensures
            exists|offset: int|
                0 <= offset < GREEN_LENGTH && self.assigned(
                    inter,
                    roads@,
                    old(lanes)@,
                    final(lanes)@,
                    offset,
                ),
    {
        let mut rng = rng_from_seed(inter.id.0 as u64);
        let offset = gen_index(&mut rng, GREEN_LENGTH);
        self.apply_with_offset(inter, lanes, roads, offset);
    }
}


/// Among three road-groups, when the roads are not all aligned, exactly one
/// group is demoted, and it is the one left out of the widest adjacent pair.
pub proof fn lemma_demoted_is_off_widest_pair(a0: int, a1: int, a2: int)
    requires
        a0 > 0 || a1 > 0 || a2 > 0,
    ensures
        demoted_group(a0, a1, a2) is Some,
        ({
            let d = demoted_group(a0, a1, a2)->0;
            let angles = seq![a0, a1, a2];
            &&& 0 <= d < 3
            &&& forall|i: int| 0 <= i < 3 ==> angles[(d + 1) % 3] >= #[trigger] angles[i]
        }),
{
    let angles = seq![a0, a1, a2];
    assert(angles[0] == a0 && angles[1] == a1 && angles[2] == a2);
}

/// What each policy gives the relevant incoming lanes of an intersection:
/// under `NoLights`, or `Smart` with at most two road-groups, neither lights nor
/// stop signs; under `StopSigns`, a stop sign on every one; under `Smart` with
/// exactly three groups whose roads are not all aligned, stop signs on exactly
/// one group, the one left out of the widest adjacent pair, and no control on
/// the others.
pub proof fn lemma_policy_outcome<P>(
    policy: LightPolicy,
    inter: &Intersection<P>,
    roads: Seq<Road>,
    old_lanes: Seq<Lane<P>>,
    new_lanes: Seq<Lane<P>>,
    offset: int,
)
    requires
        policy.assigned(inter, roads, old_lanes, new_lanes, offset),
    ensures
        ({
            let groups = road_groups(inter.roads@, inter.id, roads, old_lanes);
            &&& (policy is NoLights || (policy is Smart && groups.len() <= 2)) ==> forall|k: int, j: int|
                0 <= k < groups.len() && 0 <= j < groups[k].1.len() ==> new_lanes[(
                #[trigger] groups[k].1[j]).0 as int].control is Always
            &&& policy is StopSigns ==> forall|k: int, j: int|
                0 <= k < groups.len() && 0 <= j < groups[k].1.len() ==> new_lanes[(
                #[trigger] groups[k].1[j]).0 as int].control is StopSign
            &&& (policy is Smart && groups.len() == 3 && (pair_angle(groups, 0, inter.id, roads) > 0
                || pair_angle(groups, 1, inter.id, roads) > 0 || pair_angle(groups, 2, inter.id, roads)
                > 0)) ==> {
                let d = LightPolicy::spec_demoted(inter, old_lanes, roads)->0;
                &&& LightPolicy::spec_demoted(inter, old_lanes, roads) is Some
                &&& 0 <= d < 3
                &&& forall|i: int|
                    0 <= i < 3 ==> pair_angle(groups, (d + 1) % 3, inter.id, roads) >= #[trigger] pair_angle(
                        groups,
                        i,
                        inter.id,
                        roads,
                    )
                &&& forall|k: int, j: int|
                    0 <= k < 3 && 0 <= j < groups[k].1.len() ==> (k == d <==> new_lanes[(
                    #[trigger] groups[k].1[j]).0 as int].control is StopSign) && (k != d
                        <==> new_lanes[groups[k].1[j].0 as int].control is Always)
            }
        }),
{
    let groups = road_groups(inter.roads@, inter.id, roads, old_lanes);
    if policy is Smart && groups.len() == 3 {
        let a0 = pair_angle(groups, 0, inter.id, roads);
        let a1 = pair_angle(groups, 1, inter.id, roads);
        let a2 = pair_angle(groups, 2, inter.id, roads);
        if a0 > 0 || a1 > 0 || a2 > 0 {
            lemma_demoted_is_off_widest_pair(a0, a1, a2);
            let d = demoted_group(a0, a1, a2)->0;
            let angles = seq![a0, a1, a2];
            assert forall|i: int| 0 <= i < 3 implies pair_angle(groups, (d + 1) % 3, inter.id, roads)
                >= #[trigger] pair_angle(groups, i, inter.id, roads) by {
                assert(angles[i] == pair_angle(groups, i, inter.id, roads));
                assert(angles[(d + 1) % 3] == pair_angle(groups, (d + 1) % 3, inter.id, roads));
            }
        }
    }
}

} // verus!
