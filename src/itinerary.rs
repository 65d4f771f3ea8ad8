use vstd::prelude::*;
use crate::map::{LaneID, RoadMap};
use crate::polyline::PolyLine;
use crate::traversable::{Traversable, TraverseDirection, TraverseKind};

verus! {

/// The abstract state of an itinerary: the traversable being followed, its
/// points, and how many of them have been reached.
pub struct ItineraryView<P> {
    pub travers: Option<Traversable>,
    pub path: Seq<P>,
    pub cursor: int,
}

impl<P> ItineraryView<P> {
    /// The cursor stays within the path, and there is no path without a traversable.
    pub open spec fn wf(self) -> bool {
        &&& 0 <= self.cursor <= self.path.len()
        &&& self.travers is None ==> self.path.len() == 0
    }

    pub open spec fn remaining(self) -> int {
        self.path.len() - self.cursor
    }

    pub open spec fn point(self) -> Option<P> {
        if self.cursor < self.path.len() {
            Some(self.path[self.cursor])
        } else {
            None
        }
    }

    pub open spec fn ended(self) -> bool {
        self.cursor >= self.path.len()
    }

    /// One step along the path, if a point is left.
    pub open spec fn advanced(self) -> Self {
        if self.cursor < self.path.len() {
            ItineraryView { cursor: self.cursor + 1, ..self }
        } else {
            self
        }
    }

    pub open spec fn none() -> Self {
        ItineraryView { travers: None, path: Seq::empty(), cursor: 0 }
    }

    /// A fresh plan that follows `t` alone.
    pub open spec fn simple(t: Traversable, map: &RoadMap<P>) -> Self {
        ItineraryView { travers: Some(t), path: t.spec_points(map), cursor: 0 }
    }
}

/// An agent's plan: the traversable it follows and its progress along it.
#[derive(Debug)]
pub struct Itinerary<P> {
    travers: Option<Traversable>,
    path: PolyLine<P>,
    cursor: usize,
}

impl<P> View for Itinerary<P> {
    type V = ItineraryView<P>;

    closed spec fn view(&self) -> ItineraryView<P> {
        ItineraryView { travers: self.travers, path: self.path@, cursor: self.cursor as int }
    }
}

impl<P> Itinerary<P> {
    pub fn none() -> (r: Self)
        ensures
            r@ == ItineraryView::<P>::none(),
            r@.wf(),
    {
        Itinerary { travers: None, path: PolyLine::default(), cursor: 0 }
    }

    /// The next point to reach, if any is left.
    pub fn get_point(&self) -> (r: Option<&P>)
        requires
            self@.wf(),
        ensures
            r matches Some(p) ==> self@.point() == Some(*p),
            r is None ==> self@.point() is None,
    {
        self.path.get(self.cursor)
    }

    /// The number of points left to reach on the current traversable.
    pub fn remaining_points(&self) -> (r: usize)
        requires
            self@.wf(),
        ensures
            r == self@.remaining(),
    {
        self.path.n_points() - self.cursor
    }

    /// Marks the next point as reached; the cursor never passes the last point.
    pub fn advance(&mut self)
        requires
            old(self)@.wf(),
        ensures
            final(self)@ == old(self)@.advanced(),
            final(self)@.wf(),
    {
        if self.cursor < self.path.n_points() {
            self.cursor = self.cursor + 1;
        }
    }

    /// Every point of the plan has been reached (or there is no plan).
    pub fn has_ended(&self) -> (r: bool)
        requires
            self@.wf(),
        ensures
            r == self@.ended(),
            r == (self@.remaining() == 0),
    {
        self.cursor >= self.path.n_points()
    }

    pub fn get_travers(&self) -> (r: Option<&Traversable>)
        ensures
            r matches Some(t) ==> self@.travers == Some(*t),
            r is None ==> self@.travers is None,
    {
        match &self.travers {
            Some(t) => Some(t),
            None => None,
        }
    }

    /// Drops the plan, e.g. when its traversable no longer exists.
    pub fn set_none(&mut self)
        ensures
            final(self)@ == ItineraryView::<P>::none(),
            final(self)@.wf(),
    {
        self.travers = None;
        self.path.clear();
        self.cursor = 0;
    }
}

impl<P: Copy> Itinerary<P> {
    /// Replaces the plan with following `t` alone, from its first point.
    pub fn set_simple(&mut self, t: Traversable, map: &RoadMap<P>)
        requires
            t.spec_is_valid(map),
        ensures
            final(self)@ == ItineraryView::simple(t, map),
            final(self)@.wf(),
    {
        self.path = t.points(map);
        self.travers = Some(t);
        self.cursor = 0;
    }
}

/// Advancing keeps an itinerary well formed, so the cursor never points past the
/// last point; it moves by one exactly when a point was left; and an itinerary
/// has ended exactly when no point is left.
pub proof fn lemma_advance_within_path<P>(v: ItineraryView<P>)
    requires
        v.wf(),
    ensures
        v.advanced().wf(),
        v.advanced().cursor <= v.advanced().path.len(),
        v.remaining() > 0 ==> v.advanced().cursor == v.cursor + 1,
        v.ended() <==> v.remaining() == 0,
        v.advanced().ended() <==> v.remaining() <= 1,
{
}

} // verus!
