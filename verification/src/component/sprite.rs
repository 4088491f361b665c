//! What is drawn for an entity.

use vstd::prelude::*;
use crate::colors::Color;
use crate::component::body::Vector2;

verus! {

/// What is drawn for an entity. Every number is the bit pattern of an
/// IEEE-754 single-precision value; the library carries them and never
/// computes with them.
#[derive(Clone, Copy, PartialEq, Eq, Structural, Debug)]
pub struct Sprite {
    pub color: Color,
    pub location: Vector2,
    pub orientation: u32,
    pub size: Vector2,
    pub src_loc: Vector2,
    pub src_size: Vector2,
}

impl Sprite {
    /// A sprite at the origin with no rotation.
    pub fn new(color: Color, size: Vector2, src_loc: Vector2, src_size: Vector2) -> (s: Sprite)
        ensures
            s == (Sprite {
                color,
                location: Vector2 { x: 0, y: 0 },
                orientation: 0,
                size,
                src_loc,
                src_size,
            }),
    {
        Sprite {
            color,
            location: Vector2 { x: 0, y: 0 },
            orientation: 0,
            size,
            src_loc,
            src_size,
        }
    }
}

} // verus!
