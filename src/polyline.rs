use vstd::prelude::*;
use vstd::std_specs::iter::IteratorSpec;

verus! {

/// An ordered sequence of points: the path followed along a lane or a turn.
///
/// The point type is left open; the simulation instantiates it with a 2D vector.
#[derive(Debug)]
pub struct PolyLine<P>(Vec<P>);

impl<P> View for PolyLine<P> {
    type V = Seq<P>;

    closed spec fn view(&self) -> Seq<P> {
        self.0@
    }
}

impl<P> Default for PolyLine<P> {
    fn default() -> (r: Self)
        ensures
            r@ == Seq::<P>::empty(),
    {
        PolyLine(Vec::new())
    }
}

impl<P> PolyLine<P> {
    pub fn new(x: Vec<P>) -> (r: Self)
        ensures
            r@ == x@,
    {
        PolyLine(x)
    }

    pub fn with_capacity(c: usize) -> (r: Self)
        ensures
            r@ == Seq::<P>::empty(),
    {
        PolyLine(Vec::with_capacity(c))
    }

    pub fn n_points(&self) -> (r: usize)
        ensures
            r == self@.len(),
    {
        self.0.len()
    }

    pub fn get(&self, id: usize) -> (r: Option<&P>)
        ensures
            id < self@.len() ==> r == Some(&self@[id as int]),
            id >= self@.len() ==> r is None,
    {
        if id < self.0.len() {
            Some(&self.0[id])
        } else {
            None
        }
    }

    pub fn pop(&mut self) -> (r: Option<P>)
        ensures
            old(self)@.len() == 0 ==> r is None && final(self)@ == old(self)@,
            old(self)@.len() > 0 ==> r == Some(old(self)@.last()) && final(self)@
                == old(self)@.drop_last(),
    {
        self.0.pop()
    }

    pub fn push(&mut self, item: P)
        ensures
            final(self)@ == old(self)@.push(item),
    {
        self.0.push(item)
    }

    /// Removes and returns the first point, if there is one.
    pub fn pop_first(&mut self) -> (r: Option<P>)
        ensures
            old(self)@.len() == 0 ==> r is None && final(self)@ == old(self)@,
            old(self)@.len() > 0 ==> r == Some(old(self)@[0]) && final(self)@ == old(
                self,
            )@.skip(1),
    {
        if self.0.len() == 0 {
            None
        } else {
            let r = self.0.remove(0);
            assert(self.0@ =~= old(self)@.skip(1));
            Some(r)
        }
    }

    pub fn last(&self) -> (r: Option<&P>)
        ensures
            self@.len() == 0 ==> r is None,
            self@.len() > 0 ==> r == Some(&self@.last()),
    {
        self.0.as_slice().last()
    }

    pub fn first(&self) -> (r: Option<&P>)
        ensures
            self@.len() == 0 ==> r is None,
            self@.len() > 0 ==> r == Some(&self@[0]),
    {
        self.0.as_slice().first()
    }

    pub fn last_mut(&mut self) -> (r: Option<&mut P>)
        ensures
            old(self)@.len() == 0 ==> r is None && final(self)@ == old(self)@,
            old(self)@.len() > 0 ==> r is Some && *r.unwrap() == old(self)@.last() 
                && final(self)@ == old(self)@.update(old(self)@.len() - 1, *final(r.unwrap())),
    {
        self.0.as_mut_slice().last_mut()
    }

    pub fn first_mut(&mut self) -> (r: Option<&mut P>)
        ensures
            old(self)@.len() == 0 ==> r is None && final(self)@ == old(self)@,
            old(self)@.len() > 0 ==> r is Some && *r.unwrap() == old(self)@[0] && final(self)@
                == old(self)@.update(0, *final(r.unwrap())),
    {
        self.0.as_mut_slice().first_mut()
    }

    pub fn iter(&self) -> (r: std::slice::Iter<'_, P>)
        ensures
            vstd::std_specs::slice::into_iter_elts(r) == self@,
    {
        let r = self.0.iter();
        proof {
            broadcast use vstd::std_specs::slice::axiom_spec_slice_iter;
            assert(IteratorSpec::remaining(&r).unref() =~= self@);
        }
        r
    }

    pub fn as_slice(&self) -> (r: &[P])
        ensures
            r@ == self@,
    {
        self.0.as_slice()
    }

    pub fn clear(&mut self)
        ensures
            final(self)@ == Seq::<P>::empty(),
    {
        self.0.clear()
    }
}

impl<P: Copy> PolyLine<P> {
    /// Appends copies of the given points, in order.
    pub fn extend(&mut self, s: &[P])
        ensures
            final(self)@ == old(self)@ + s@,
    {
        let ghost start = self@;
        let mut i: usize = 0;
        while i < s.len()
            invariant
                i <= s@.len(),
                self@ == start + s@.subrange(0, i as int),
            decreases s@.len() - i,
        {
            self.0.push(s[i]);
            proof {
                assert(s@.subrange(0, i + 1) =~= s@.subrange(0, i as int).push(s@[i as int]));
            }
            i = i + 1;
        }
        assert(s@.subrange(0, s@.len() as int) =~= s@);
    }
}

} // verus!
