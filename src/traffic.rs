use vstd::prelude::*;

verus! {

/// What a traffic-control regime tells an arriving agent at a given moment.
#[derive(Clone, Copy, Debug, PartialEq, Eq, Structural)]
pub enum TrafficBehavior {
    RED,
    ORANGE,
    GREEN,
    STOP,
}

impl TrafficBehavior {
    /// An agent may enter unless the light is red or orange; a stop sign lets
    /// agents through once they have come close.
    pub open spec fn spec_may_enter(self) -> bool {
        !(self is RED || self is ORANGE)
    }

    pub fn may_enter(self) -> (r: bool)
        ensures
            r == self.spec_may_enter(),
    {
        !matches!(self, TrafficBehavior::RED | TrafficBehavior::ORANGE)
    }
}

/// Behaviour of a cyclic light at time `t`: each cycle starts with `green`
/// seconds of green, then `orange` seconds of orange, and is red for the rest
/// of the `period`, the whole being shifted by `offset` seconds.
pub open spec fn light_behavior(green: int, orange: int, period: int, offset: int, t: int) -> TrafficBehavior
    recommends
        period > 0,
{
    let r = (t + offset) % period;
    if r < green {
        TrafficBehavior::GREEN
    } else if r < green + orange {
        TrafficBehavior::ORANGE
    } else {
        TrafficBehavior::RED
    }
}

/// A fixed repeating light cycle: green, then orange, then red.
#[derive(Clone, Copy, Debug, PartialEq, Eq, Structural)]
pub struct TrafficLightSchedule {
    period: usize,
    green: usize,
    orange: usize,
    red: usize,
    offset: usize,
}

impl TrafficLightSchedule {
    pub closed spec fn spec_period(self) -> int {
        self.period as int
    }

    pub closed spec fn spec_green(self) -> int {
        self.green as int
    }

    pub closed spec fn spec_orange(self) -> int {
        self.orange as int
    }

    pub closed spec fn spec_red(self) -> int {
        self.red as int
    }

    pub closed spec fn spec_offset(self) -> int {
        self.offset as int
    }

    /// The cycle is as long as its three phases together, and not empty.
    pub open spec fn wf(self) -> bool {
        &&& self.spec_period() == self.spec_green() + self.spec_orange() + self.spec_red()
        &&& self.spec_period() > 0
    }

    /// What this schedule shows at time `t` (in whole seconds).
    pub open spec fn behavior(self, t: int) -> TrafficBehavior {
        light_behavior(self.spec_green(), self.spec_orange(), self.spec_period(), self.spec_offset(), t)
    }

    pub fn from_basic(green: usize, orange: usize, red: usize, offset: usize) -> (r: Self)
        requires
            green + orange + red > 0,
            green + orange + red <= usize::MAX,
        ensures
            r.wf(),
            r.spec_green() == green,
            r.spec_orange() == orange,
            r.spec_red() == red,
            r.spec_offset() == offset,
    {
        TrafficLightSchedule { period: green + orange + red, green, orange, red, offset }
    }

    pub fn period(&self) -> (r: usize)
        ensures
            r == self.spec_period(),
    {
        self.period
    }

    pub fn green(&self) -> (r: usize)
        ensures
            r == self.spec_green(),
    {
        self.green
    }

    pub fn orange(&self) -> (r: usize)
        ensures
            r == self.spec_orange(),
    {
        self.orange
    }

    pub fn red(&self) -> (r: usize)
        ensures
            r == self.spec_red(),
    {
        self.red
    }

    pub fn offset(&self) -> (r: usize)
        ensures
            r == self.spec_offset(),
    {
        self.offset
    }

    pub fn get_behavior(&self, seconds: u64) -> (r: TrafficBehavior)
        requires
            self.wf(),
        ensures
            r == self.behavior(seconds as int),
    {
        let p = self.period as u64;
        let a = seconds % p;
        let b = (self.offset as u64) % p;
        let rem = ((a as u128 + b as u128) % (p as u128)) as u64;
        proof {
            lemma_mod_sum(seconds as int, self.offset as int, p as int);
        }
        if rem < self.green as u64 {
            TrafficBehavior::GREEN
        } else if (rem as u128) < self.green as u128 + self.orange as u128 {
            TrafficBehavior::ORANGE
        } else {
            TrafficBehavior::RED
        }
    }
}

proof fn lemma_mod_sum(a: int, b: int, p: int)
    requires
        p > 0,
        a >= 0,
        b >= 0,
    ensures
        (a % p + b % p) % p == (a + b) % p,
{
    vstd::arithmetic::div_mod::lemma_add_mod_noop(a, b, p);
}

/// A light shows the same thing one whole cycle later.
pub proof fn lemma_light_periodic(s: TrafficLightSchedule, t: int)
    requires
        s.wf(),
    ensures
        s.behavior(t) == s.behavior(t + s.spec_period()),
{
    let p = s.spec_period();
    vstd::arithmetic::div_mod::lemma_mod_add_multiples_vanish(t + s.spec_offset(), p);
    assert(t + p + s.spec_offset() == p + (t + s.spec_offset()));
}

/// The regime governing entry onto a lane.
#[derive(Clone, Copy, Debug, PartialEq, Eq, Structural)]
pub enum TrafficControl {
    Always,
    StopSign,
    Light(TrafficLightSchedule),
}

impl TrafficControl {
    pub open spec fn wf(self) -> bool {
        self is Light ==> self->Light_0.wf()
    }

    /// What this regime shows at time `t`.
    pub open spec fn behavior(self, t: int) -> TrafficBehavior {
        match self {
            TrafficControl::Always => TrafficBehavior::GREEN,
            TrafficControl::StopSign => TrafficBehavior::STOP,
            TrafficControl::Light(s) => s.behavior(t),
        }
    }

    pub fn get_behavior(&self, seconds: u64) -> (r: TrafficBehavior)
        requires
            self.wf(),
        ensures
            r == self.behavior(seconds as int),
    {
        match self {
            TrafficControl::Always => TrafficBehavior::GREEN,
            TrafficControl::StopSign => TrafficBehavior::STOP,
            TrafficControl::Light(s) => s.get_behavior(seconds),
        }
    }

    pub fn is_always(&self) -> (r: bool)
        ensures
            r == (*self is Always),
    {
        matches!(self, TrafficControl::Always)
    }

    pub fn is_stop_sign(&self) -> (r: bool)
        ensures
            r == (*self is StopSign),
    {
        matches!(self, TrafficControl::StopSign)
    }

    pub fn is_light(&self) -> (r: bool)
        ensures
            r == (*self is Light),
    {
        matches!(self, TrafficControl::Light(_))
    }
}

} // verus!
