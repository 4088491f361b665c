//! Bodies: what moves, and when its state is next told to the clients.

use vstd::prelude::*;

verus! {

/// Time between two broadcasts of an entity whose state nobody changed, in nanoseconds.
pub const KEYFRAME_PERIOD: i64 = 250_000_000i64;

/// A point or direction in the plane, as two IEEE-754 single-precision bit patterns.
#[derive(Clone, Copy, PartialEq, Eq, Structural, Debug)]
pub struct Vector2 {
    pub x: u32,
    pub y: u32,
}

/// A body that never moves.
#[derive(Clone, Copy, PartialEq, Eq, Structural, Debug)]
pub struct StaticBody {
    pub loc: Vector2,
    pub keyframe: bool,
}

/// A body in free flight.
#[derive(Clone, Copy, PartialEq, Eq, Structural, Debug)]
pub struct PlanarBody {
    pub loc: Vector2,
    pub vel: Vector2,
    pub acc: Vector2,
    /// Nanoseconds until the next keyframe is due; due when not positive.
    pub keyframe_countdown: i64,
}

/// A body swinging on a rope around `origin`.
#[derive(Clone, Copy, PartialEq, Eq, Structural, Debug)]
pub struct RadialBody {
    pub origin: Vector2,
    pub radius: u32,
    pub loc: u32,
    pub vel: u32,
    pub acc: Vector2,
    /// Nanoseconds until the next keyframe is due; due when not positive.
    pub keyframe_countdown: i64,
}

/// The physical state of an entity. The coordinates are bit patterns that the
/// library hands on unchanged; what it decides on is the kind of body and
/// when its state is due for broadcast.
#[derive(Clone, Copy, PartialEq, Eq, Structural, Debug)]
pub enum Body {
    Static(StaticBody),
    Planar(PlanarBody),
    Radial(RadialBody),
}

/// `a - b`, held within the range of `i64`.
pub open spec fn spec_saturating_sub(a: i64, b: i64) -> i64 {
    if a - b > i64::MAX {
        i64::MAX
    } else if a - b < i64::MIN {
        i64::MIN
    } else {
        (a - b) as i64
    }
}

fn saturating_sub(a: i64, b: i64) -> (r: i64)
    ensures
        r == spec_saturating_sub(a, b),
{
    if b >= 0 {
        if a < i64::MIN + b {
            i64::MIN
        } else {
            a - b
        }
    } else {
        if a > i64::MAX + b {
            i64::MAX
        } else {
            a - b
        }
    }
}

impl StaticBody {
    /// A static body is due for broadcast once, when it is made.
    pub fn new(loc: Vector2) -> (b: StaticBody)
        ensures
            b == (StaticBody { loc, keyframe: true }),
    {
        StaticBody { loc, keyframe: true }
    }

    pub fn get_is_keyframe_and_reset(&mut self) -> (due: bool)
        ensures
            due == old(self).keyframe,
            *final(self) == (StaticBody { keyframe: false, ..*old(self) }),
    {
        let result = self.keyframe;
        self.keyframe = false;
        result
    }
}

impl PlanarBody {
    /// A new body is due for broadcast at once.
    pub fn new(loc: Vector2, vel: Vector2, acc: Vector2) -> (b: PlanarBody)
        ensures
            b == (PlanarBody { loc, vel, acc, keyframe_countdown: 0 }),
    {
        PlanarBody { loc, vel, acc, keyframe_countdown: 0 }
    }

    /// Changing the acceleration makes the body due for broadcast at once.
    pub fn set_acc(&mut self, acc: Vector2)
        ensures
            *final(self) == (PlanarBody { acc, keyframe_countdown: 0, ..*old(self) }),
    {
        self.acc = acc;
        self.keyframe_countdown = 0;
    }

    /// Lets `duration` nanoseconds pass on the countdown; a negative duration winds it back.
    pub fn elapse(&mut self, duration: i64)
        ensures
            *final(self) == (PlanarBody {
                keyframe_countdown: spec_saturating_sub(old(self).keyframe_countdown, duration),
                ..*old(self)
            }),
    {
        self.keyframe_countdown = saturating_sub(self.keyframe_countdown, duration);
    }

    pub fn get_is_keyframe_and_reset(&mut self) -> (due: bool)
        ensures
            due == (old(self).keyframe_countdown <= 0),
            due ==> *final(self) == (PlanarBody {
                keyframe_countdown: KEYFRAME_PERIOD,
                ..*old(self)
            }),
            !due ==> *final(self) == *old(self),
    {
        if self.keyframe_countdown <= 0 {
            self.keyframe_countdown = KEYFRAME_PERIOD;
            true
        } else {
            false
        }
    }
}

impl RadialBody {
    /// A new body is due for broadcast at once.
    pub fn new(origin: Vector2, radius: u32, loc: u32, vel: u32, acc: Vector2) -> (b: RadialBody)
        ensures
            b == (RadialBody { origin, radius, loc, vel, acc, keyframe_countdown: 0 }),
    {
        RadialBody { origin, radius, loc, vel, acc, keyframe_countdown: 0 }
    }

    /// Changing the acceleration makes the body due for broadcast at once.
    pub fn set_acc(&mut self, acc: Vector2)
        ensures
            *final(self) == (RadialBody { acc, keyframe_countdown: 0, ..*old(self) }),
    {
        self.acc = acc;
        self.keyframe_countdown = 0;
    }

    /// Lets `duration` nanoseconds pass on the countdown; a negative duration winds it back.
    pub fn elapse(&mut self, duration: i64)
        ensures
            *final(self) == (RadialBody {
                keyframe_countdown: spec_saturating_sub(old(self).keyframe_countdown, duration),
                ..*old(self)
            }),
    {
        self.keyframe_countdown = saturating_sub(self.keyframe_countdown, duration);
    }

    pub fn get_is_keyframe_and_reset(&mut self) -> (due: bool)
        ensures
            due == (old(self).keyframe_countdown <= 0),
            due ==> *final(self) == (RadialBody {
                keyframe_countdown: KEYFRAME_PERIOD,
                ..*old(self)
            }),
            !due ==> *final(self) == *old(self),
    {
        if self.keyframe_countdown <= 0 {
            self.keyframe_countdown = KEYFRAME_PERIOD;
            true
        } else {
            false
        }
    }
}

impl Body {
    /// Whether a broadcast of this body is due.
    pub open spec fn keyframe_due(self) -> bool {
        match self {
            Body::Static(b) => b.keyframe,
            Body::Planar(b) => b.keyframe_countdown <= 0,
            Body::Radial(b) => b.keyframe_countdown <= 0,
        }
    }

    /// The body once its due broadcast has been made.
    pub open spec fn keyframe_reset(self) -> Body {
        match self {
            Body::Static(b) => Body::Static(StaticBody { keyframe: false, ..b }),
            Body::Planar(b) => if b.keyframe_countdown <= 0 {
                Body::Planar(PlanarBody { keyframe_countdown: KEYFRAME_PERIOD, ..b })
            } else {
                self
            },
            Body::Radial(b) => if b.keyframe_countdown <= 0 {
                Body::Radial(RadialBody { keyframe_countdown: KEYFRAME_PERIOD, ..b })
            } else {
                self
            },
        }
    }

    /// The body after `duration` nanoseconds on its countdown.
    pub open spec fn elapsed(self, duration: i64) -> Body {
        match self {
            Body::Static(b) => self,
            Body::Planar(b) => Body::Planar(
                PlanarBody {
                    keyframe_countdown: spec_saturating_sub(b.keyframe_countdown, duration),
                    ..b
                },
            ),
            Body::Radial(b) => Body::Radial(
                RadialBody {
                    keyframe_countdown: spec_saturating_sub(b.keyframe_countdown, duration),
                    ..b
                },
            ),
        }
    }

    /// Whether the body hangs on a rope.
    pub open spec fn is_attached(self) -> bool {
        self is Radial
    }

    /// A body that stays at `loc`.
    pub fn new_static(loc: Vector2) -> (b: Body)
        ensures
            b == Body::Static(StaticBody { loc, keyframe: true }),
    {
        Body::Static(StaticBody::new(loc))
    }

    /// A body that moves freely in the plane.
    pub fn new_dynamic(loc: Vector2, vel: Vector2, acc: Vector2) -> (b: Body)
        ensures
            b == Body::Planar(PlanarBody { loc, vel, acc, keyframe_countdown: 0 }),
    {
        Body::Planar(PlanarBody::new(loc, vel, acc))
    }

    /// Lets `duration` nanoseconds pass on the keyframe countdown. A static
    /// body has none and stays as it is.
    pub fn elapse(&mut self, duration: i64)
        ensures
            *final(self) == old(self).elapsed(duration),
    {
        match self {
            Body::Static(_) => {},
            Body::Planar(b) => b.elapse(duration),
            Body::Radial(b) => b.elapse(duration),
        }
    }

    /// Whether the body hangs on a rope.
    pub fn get_is_attached(&self) -> (attached: bool)
        ensures
            attached == self.is_attached(),
    {
        match self {
            Body::Static(_) => false,
            Body::Planar(_) => false,
            Body::Radial(_) => true,
        }
    }

    /// Says whether a broadcast is due and, if so, starts the next period.
    pub fn get_is_keyframe_and_reset(&mut self) -> (due: bool)
        ensures
            due == old(self).keyframe_due(),
            *final(self) == old(self).keyframe_reset(),
    {
        match self {
            Body::Static(b) => b.get_is_keyframe_and_reset(),
            Body::Planar(b) => b.get_is_keyframe_and_reset(),
            Body::Radial(b) => b.get_is_keyframe_and_reset(),
        }
    }

    /// Sets the acceleration of a moving body, which makes it due for
    /// broadcast at once.
    pub fn set_acc(&mut self, acc: Vector2)
        requires
            !(*old(self) is Static),
        ensures
            match *old(self) {
                Body::Static(b) => false,
                Body::Planar(b) => *final(self) == Body::Planar(
                    PlanarBody { acc, keyframe_countdown: 0, ..b },
                ),
                Body::Radial(b) => *final(self) == Body::Radial(
                    RadialBody { acc, keyframe_countdown: 0, ..b },
                ),
            },
    {
        match self {
            Body::Static(_) => {},
            Body::Planar(b) => b.set_acc(acc),
            Body::Radial(b) => b.set_acc(acc),
        }
    }
}

} // verus!
