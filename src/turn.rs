use vstd::prelude::*;
use crate::map::{IntersectionID, LaneID};
use crate::polyline::PolyLine;

verus! {

#[derive(Clone, Copy, Debug, PartialEq, Eq, Structural)]
pub struct TurnID {
    pub parent: IntersectionID,
    pub src: LaneID,
    pub dst: LaneID,
}

impl TurnID {
    pub fn new(parent: IntersectionID, src: LaneID, dst: LaneID) -> (r: Self)
        ensures
            r == (TurnID { parent, src, dst }),
    {
        TurnID { parent, src, dst }
    }
}

#[derive(Clone, Copy, Debug, PartialEq, Eq, Structural)]
pub enum TurnKind {
    Crosswalk,
    WalkingCorner,
    Normal,
}

impl TurnKind {
    pub fn is_crosswalk(self) -> (r: bool)
        ensures
            r == (self is Crosswalk),
    {
        matches!(self, TurnKind::Crosswalk)
    }
}

/// Number of interior samples taken along a curved turn.
pub const N_SPLINE: usize = 6;

/// A turn through an intersection, from the end of one lane to the start of another.
#[derive(Debug)]
pub struct Turn<P> {
    pub id: TurnID,
    pub points: PolyLine<P>,
    pub kind: TurnKind,
}

impl<P> Turn<P> {
    pub fn new(id: TurnID, kind: TurnKind) -> (r: Self)
        ensures
            r.id == id,
            r.kind == kind,
            r.points@ == Seq::<P>::empty(),
    {
        Turn { id, points: PolyLine::default(), kind }
    }

    /// Rebuilds the turn's path between `pos_src` (the end of the source lane)
    /// and `pos_dst` (the start of the destination lane).
    ///
    /// A crosswalk is the straight segment between the two. Any other turn is
    /// sampled along a curve: `sample(i, n)` gives the curve's point at
    /// parameter `i / n`, and the path is `pos_src`, the `N_SPLINE` interior
    /// samples `i = 1 ..= N_SPLINE` with `n = N_SPLINE + 1`, then `pos_dst`.
    pub fn make_points<F: Fn(usize, usize) -> P>(&mut self, pos_src: P, pos_dst: P, sample: F)
        requires
            forall|i: usize| 1 <= i <= N_SPLINE ==> #[trigger] sample.requires((i, (N_SPLINE + 1) as usize)),
        ensures
            final(self).id == old(self).id,
            final(self).kind == old(self).kind,
            old(self).kind is Crosswalk ==> final(self).points@ == seq![pos_src, pos_dst],
            !(old(self).kind is Crosswalk) ==> {
                &&& final(self).points@.len() == N_SPLINE + 2
                &&& final(self).points@[0] == pos_src
                &&& final(self).points@[N_SPLINE + 1] == pos_dst
                &&& forall|k: int|
                    1 <= k <= N_SPLINE ==> sample.ensures(
                        (k as usize, (N_SPLINE + 1) as usize),
                        #[trigger] final(self).points@[k],
                    )
            },
    {
        self.points.clear();
        if self.kind.is_crosswalk() {
            self.points.push(pos_src);
            self.points.push(pos_dst);
            return;
        }
        self.points.push(pos_src);
        let mut i: usize = 1;
        while i <= N_SPLINE
            invariant
                1 <= i <= N_SPLINE + 1,
                self.id == old(self).id,
                self.kind == old(self).kind,
                !(self.kind is Crosswalk),
                self.points@.len() == i,
                self.points@[0] == pos_src,
                forall|i: usize| 1 <= i <= N_SPLINE ==> #[trigger] sample.requires((i, (N_SPLINE + 1) as usize)),
                forall|k: int|
                    1 <= k < i ==> sample.ensures(
                        (k as usize, (N_SPLINE + 1) as usize),
                        #[trigger] self.points@[k],
                    ),
            decreases N_SPLINE + 1 - i,
        {
            let pos = sample(i, N_SPLINE + 1);
            self.points.push(pos);
            i = i + 1;
        }
        self.points.push(pos_dst);
    }
}

} // verus!
