//! The components that the systems attach to entities.

pub mod body;
pub mod sprite;

use vstd::prelude::*;
use crate::component::body::Vector2;
use crate::input::{InputEvent, KeyMapping};

verus! {

/// Marks an entity that is to be torn down.
#[derive(Clone, Copy, PartialEq, Eq, Structural, Debug)]
pub struct Dead;

/// Marks the entity that the camera follows.
#[derive(Clone, Copy, PartialEq, Eq, Structural, Debug)]
pub struct Focus;

/// Marks a place that a rope can be tied to.
#[derive(Clone, Copy, PartialEq, Eq, Structural, Debug)]
pub struct Anchor;

/// Marks an entity whose state the server tells its clients.
#[derive(Clone, Copy, PartialEq, Eq, Structural, Debug)]
pub struct Network;

/// The keys that drive an entity on this machine.
#[derive(Clone, Copy, PartialEq, Eq, Structural, Debug)]
pub struct Keyboard(pub KeyMapping);

/// The round-trip time last measured to a client, in nanoseconds.
#[derive(Clone, Copy, PartialEq, Eq, Structural, Debug)]
pub struct Latency(pub u64);

/// A player's avatar: the input that waits to be acted on, oldest first, and
/// the place where the avatar is put back into play.
#[derive(Debug)]
pub struct Gorilla {
    pub input_events: Vec<InputEvent>,
    pub spawn_location: Vector2,
}

/// A gorilla as the contracts speak of it.
pub struct GorillaView {
    pub input_events: Seq<InputEvent>,
    pub spawn_location: Vector2,
}

impl View for Gorilla {
    type V = GorillaView;

    open spec fn view(&self) -> GorillaView {
        GorillaView { input_events: self.input_events@, spawn_location: self.spawn_location }
    }
}

impl Gorilla {
    /// A gorilla without pending input.
    pub fn new(spawn_location: Vector2) -> (g: Gorilla)
        ensures
            g@ == (GorillaView { input_events: Seq::empty(), spawn_location }),
    {
        Gorilla { input_events: Vec::new(), spawn_location }
    }
}

} // verus!
