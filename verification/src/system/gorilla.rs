//! The avatars and the anchors of the game, and what a player's input means
//! for an avatar's body.

use vstd::prelude::*;
use crate::colors::{white, Color};
use crate::component::body::{Body, Vector2};
use crate::component::sprite::Sprite;
use crate::component::{Anchor, Focus, Gorilla, GorillaView, Keyboard, Latency, Network};
use crate::ecs::{World, WorldView, Entity, EntityView};
use crate::err::GgError;
use crate::input::{Button, InputEvent, KeyMapping};

verus! {

/// Bit pattern of `0.1`.
pub const TENTH: u32 = 0x3dcc_cccdu32;

/// Bit pattern of `0.3`.
pub const THREE_TENTHS: u32 = 0x3e99_999au32;

/// Bit pattern of `1.0`.
pub const ONE: u32 = 0x3f80_0000u32;

/// Bit pattern of `3.0`.
pub const THREE: u32 = 0x4040_0000u32;

/// Bit pattern of `-3.0`.
pub const MINUS_THREE: u32 = 0xc040_0000u32;

/// Bit pattern of `-10.0`: how fast an avatar falls.
pub const GRAVITY: u32 = 0xc120_0000u32;

/// Bit pattern of `-20.0`: how fast an avatar falls while the second button is held.
pub const HEAVY_GRAVITY: u32 = 0xc1a0_0000u32;

/// An avatar as it is made: in free flight from `loc`, at rest, falling;
/// drawn in `color`; told to the clients; and with no latency measured yet.
pub open spec fn spec_gorilla(
    loc: Vector2,
    color: Color,
    key_mapping: Option<KeyMapping>,
    with_focus: bool,
) -> EntityView {
    EntityView {
        id: 0,
        body: Some(
            Body::Planar(
                crate::component::body::PlanarBody {
                    loc,
                    vel: Vector2 { x: 0, y: 0 },
                    acc: Vector2 { x: 0, y: GRAVITY },
                    keyframe_countdown: 0,
                },
            ),
        ),
        sprite: Some(
            Sprite {
                color,
                location: Vector2 { x: 0, y: 0 },
                orientation: 0,
                size: Vector2 { x: THREE_TENTHS, y: THREE_TENTHS },
                src_loc: Vector2 { x: 0, y: 0 },
                src_size: Vector2 { x: ONE, y: ONE },
            },
        ),
        gorilla: Some(GorillaView { input_events: Seq::empty(), spawn_location: loc }),
        latency: Some(Latency(0)),
        keyboard: match key_mapping {
            Some(km) => Some(Keyboard(km)),
            None => None,
        },
        focus: if with_focus {
            Some(Focus)
        } else {
            None
        },
        network: Some(Network),
        anchor: None,
        dead: None,
    }
}

/// An anchor as it is made: a static body at `loc`, drawn small and white,
/// and told to the clients.
pub open spec fn spec_anchor(loc: Vector2) -> EntityView {
    EntityView {
        id: 0,
        body: Some(Body::Static(crate::component::body::StaticBody { loc, keyframe: true })),
        sprite: Some(
            Sprite {
                color: crate::colors::spec_white(),
                location: Vector2 { x: 0, y: 0 },
                orientation: 0,
                size: Vector2 { x: TENTH, y: TENTH },
                src_loc: Vector2 { x: 0, y: 0 },
                src_size: Vector2 { x: ONE, y: ONE },
            },
        ),
        gorilla: None,
        latency: None,
        keyboard: None,
        focus: None,
        network: Some(Network),
        anchor: Some(Anchor),
        dead: None,
    }
}

/// Makes an avatar and returns its id. Fails, and makes nothing, exactly
/// when the store has given out its last id.
pub fn spawn_gorilla(
    ecs: &mut World,
    loc: Vector2,
    color: Color,
    key_mapping: Option<KeyMapping>,
    with_focus: bool,
) -> (r: Result<u64, GgError>)
    requires
        old(ecs).wf(),
    ensures
        final(ecs).wf(),
        match r {
            Ok(id) => {
                &&& old(ecs)@.ids < u64::MAX
                &&& id == old(ecs)@.ids
                &&& final(ecs)@ == old(ecs)@.spawn(
                    spec_gorilla(loc, color, key_mapping, with_focus),
                )
            },
            Err(e) => {
                &&& old(ecs)@.ids == u64::MAX
                &&& final(ecs)@ == old(ecs)@
                &&& e.reason() == "out of entity ids"@
            },
        },
{
    let template = Entity {
        id: 0,
        body: Some(
            Body::new_dynamic(loc, Vector2 { x: 0, y: 0 }, Vector2 { x: 0, y: GRAVITY }),
        ),
        sprite: Some(
            Sprite::new(
                color,
                Vector2 { x: THREE_TENTHS, y: THREE_TENTHS },
                Vector2 { x: 0, y: 0 },
                Vector2 { x: ONE, y: ONE },
            ),
        ),
        gorilla: Some(Gorilla::new(loc)),
        latency: Some(Latency(0)),
        keyboard: match key_mapping {
            Some(km) => Some(Keyboard(km)),
            None => None,
        },
        focus: if with_focus {
            Some(Focus)
        } else {
            None
        },
        network: Some(Network),
        anchor: None,
        dead: None,
    };
    match ecs.spawn(template) {
        Some(id) => Ok(id),
        None => Err(GgError::out_of_entity_ids()),
    }
}

/// Makes an anchor and returns its id. Fails, and makes nothing, exactly
/// when the store has given out its last id.
pub fn spawn_anchor(ecs: &mut World, loc: Vector2) -> (r: Result<u64, GgError>)
    requires
        old(ecs).wf(),
    ensures
        final(ecs).wf(),
        match r {
            Ok(id) => {
                &&& old(ecs)@.ids < u64::MAX
                &&& id == old(ecs)@.ids
                &&& final(ecs)@ == old(ecs)@.spawn(spec_anchor(loc))
            },
            Err(e) => {
                &&& old(ecs)@.ids == u64::MAX
                &&& final(ecs)@ == old(ecs)@
                &&& e.reason() == "out of entity ids"@
            },
        },
{
    let template = Entity {
        id: 0,
        body: Some(Body::new_static(loc)),
        sprite: Some(
            Sprite::new(
                white(),
                Vector2 { x: TENTH, y: TENTH },
                Vector2 { x: 0, y: 0 },
                Vector2 { x: ONE, y: ONE },
            ),
        ),
        gorilla: None,
        latency: None,
        keyboard: None,
        focus: None,
        network: Some(Network),
        anchor: Some(Anchor),
        dead: None,
    };
    match ecs.spawn(template) {
        Some(id) => Ok(id),
        None => Err(GgError::out_of_entity_ids()),
    }
}

/// Where the `i`-th of the five anchors of the playing field is: the four
/// corners of a square and, third of the five, its centre.
pub open spec fn spec_anchor_location(i: int) -> Vector2 {
    if i == 0 {
        Vector2 { x: MINUS_THREE, y: MINUS_THREE }
    } else if i == 1 {
        Vector2 { x: MINUS_THREE, y: THREE }
    } else if i == 2 {
        Vector2 { x: 0, y: 0 }
    } else if i == 3 {
        Vector2 { x: THREE, y: MINUS_THREE }
    } else {
        Vector2 { x: THREE, y: THREE }
    }
}

/// The store with the first `count` anchors of the playing field made.
pub open spec fn spec_with_anchors(store: WorldView, count: nat) -> WorldView
    decreases count,
{
    if count == 0 {
        store
    } else {
        spec_with_anchors(store, (count - 1) as nat).spawn(
            spec_anchor(spec_anchor_location(count - 1)),
        )
    }
}

fn anchor_location(i: usize) -> (loc: Vector2)
    ensures
        loc == spec_anchor_location(i as int),
{
    if i == 0 {
        Vector2 { x: MINUS_THREE, y: MINUS_THREE }
    } else if i == 1 {
        Vector2 { x: MINUS_THREE, y: THREE }
    } else if i == 2 {
        Vector2 { x: 0, y: 0 }
    } else if i == 3 {
        Vector2 { x: THREE, y: MINUS_THREE }
    } else {
        Vector2 { x: THREE, y: THREE }
    }
}

/// Makes the five anchors of the playing field and returns the ids of
/// those made. Fails as soon as the store has given out its last id; the
/// anchors made until then stay.
pub fn spawn_anchors(ecs: &mut World) -> (r: Result<Vec<u64>, GgError>)
    requires
        old(ecs).wf(),
    ensures
        final(ecs).wf(),
        match r {
            Ok(ids) => {
                &&& old(ecs)@.ids + 5 <= u64::MAX
                &&& final(ecs)@ == spec_with_anchors(old(ecs)@, 5)
                &&& ids@.len() == 5
                &&& forall|i: int| 0 <= i < 5 ==> #[trigger] ids@[i] == old(ecs)@.ids + i
            },
            Err(e) => {
                &&& old(ecs)@.ids + 5 > u64::MAX
                &&& final(ecs)@ == spec_with_anchors(
                    old(ecs)@,
                    (u64::MAX - old(ecs)@.ids) as nat,
                )
                &&& e.reason() == "out of entity ids"@
            },
        },
{
    let mut ids: Vec<u64> = Vec::new();
    let mut i: usize = 0;
    while i < 5
        invariant
            ecs.wf(),
            i <= 5,
            ids@.len() == i,
            forall|k: int| 0 <= k < i ==> #[trigger] ids@[k] == old(ecs)@.ids + k,
            old(ecs)@.ids + i <= u64::MAX,
            ecs@.ids == old(ecs)@.ids + i,
            ecs@ == spec_with_anchors(old(ecs)@, i as nat),
        decreases 5 - i,
    {
        match spawn_anchor(ecs, anchor_location(i)) {
            Ok(id) => {
                ids.push(id);
            },
            Err(e) => {
                return Err(e);
            },
        }
        i += 1;
    }
    Ok(ids)
}

/// What is to be done to an avatar's body.
#[derive(Clone, Copy, PartialEq, Eq, Structural, Debug)]
pub enum BodyCommand {
    /// Move the body along its path as if this many nanoseconds passed; back
    /// in time if negative.
    Step(i64),
    /// Tie a body in free flight to the anchor nearest to it.
    TryAddRope,
    /// Let a body on a rope go.
    TryRemoveRope,
    /// Set the body's acceleration.
    SetAcc(Vector2),
}

/// What a button going down or up does to the avatar's body: the first
/// button takes and lets go of the rope, the second makes the avatar heavy.
pub open spec fn spec_command(event: InputEvent) -> BodyCommand {
    match event.button {
        Button::One => if event.is_down {
            BodyCommand::TryAddRope
        } else {
            BodyCommand::TryRemoveRope
        },
        Button::Two => if event.is_down {
            BodyCommand::SetAcc(Vector2 { x: 0, y: HEAVY_GRAVITY })
        } else {
            BodyCommand::SetAcc(Vector2 { x: 0, y: GRAVITY })
        },
    }
}

/// The commands of `events`, in their order.
pub open spec fn spec_commands(events: Seq<InputEvent>) -> Seq<BodyCommand> {
    Seq::new(events.len(), |i: int| spec_command(events[i]))
}

/// Half of a round-trip time: the estimate of the time that a message
/// takes one way.
pub open spec fn spec_one_way(latency: u64) -> i64 {
    (latency / 2) as i64
}

/// What is to be done to an avatar's body for the input `events`.
///
/// Without input, nothing. With input, the commands of the events in their
/// order; and where latency is compensated for, the body is first moved back
/// by the one-way latency and, after the commands, forward again by as much,
/// so that the input takes effect at the time at which the player gave it.
pub open spec fn spec_plan(events: Seq<InputEvent>, compensate: bool, latency: u64) -> Seq<
    BodyCommand,
> {
    if events.len() == 0 {
        Seq::empty()
    } else if compensate {
        seq![BodyCommand::Step(-spec_one_way(latency) as i64)] + spec_commands(events)
            + seq![BodyCommand::Step(spec_one_way(latency))]
    } else {
        spec_commands(events)
    }
}

/// Compensating for latency adds to what the input asks for nothing but a
/// step back in time before it and a step forward by as much after it, and
/// where there is no input it adds nothing at all.
pub proof fn theorem_compensation_brackets_the_input(events: Seq<InputEvent>, latency: u64)
    ensures
        events.len() == 0 ==> spec_plan(events, true, latency) == Seq::<BodyCommand>::empty(),
        events.len() > 0 ==> spec_plan(events, true, latency) == seq![
            BodyCommand::Step((-spec_one_way(latency)) as i64),
        ] + spec_plan(events, false, latency) + seq![BodyCommand::Step(spec_one_way(latency))],
        0 <= spec_one_way(latency) == latency / 2,
        (-spec_one_way(latency)) as i64 + spec_one_way(latency) == 0,
{
}

/// What the input `event` asks of the body.
pub fn command(event: InputEvent) -> (c: BodyCommand)
    ensures
        c == spec_command(event),
{
    match event.button {
        Button::One => if event.is_down {
            BodyCommand::TryAddRope
        } else {
            BodyCommand::TryRemoveRope
        },
        Button::Two => if event.is_down {
            BodyCommand::SetAcc(Vector2 { x: 0, y: HEAVY_GRAVITY })
        } else {
            BodyCommand::SetAcc(Vector2 { x: 0, y: GRAVITY })
        },
    }
}

/// Turns the input that players gave into commands for their avatars' bodies.
pub struct GorillaSystem {
    pub is_latency_compensation_enabled: bool,
}

impl GorillaSystem {
    /// The round-trip time measured for an entity: that of its latency
    /// component, and none where it has none.
    pub open spec fn spec_latency(entity: EntityView) -> u64 {
        match entity.latency {
            Some(l) => l.0,
            None => 0,
        }
    }

    /// Makes the anchors of the playing field.
    pub fn init(&self, state: &mut World) -> (r: Result<(), GgError>)
        requires
            old(state).wf(),
        ensures
            final(state).wf(),
            match r {
                Ok(()) => {
                    &&& old(state)@.ids + 5 <= u64::MAX
                    &&& final(state)@ == spec_with_anchors(old(state)@, 5)
                },
                Err(e) => {
                    &&& old(state)@.ids + 5 > u64::MAX
                    &&& final(state)@ == spec_with_anchors(
                        old(state)@,
                        (u64::MAX - old(state)@.ids) as nat,
                    )
                    &&& e.reason() == "out of entity ids"@
                },
            },
    {
        match spawn_anchors(state) {
            Ok(_) => Ok(()),
            Err(e) => Err(e),
        }
    }

    /// What is to be done to a body for the input `events`, given the
    /// round-trip time `latency` measured to the player.
    pub fn plan(&self, events: &Vec<InputEvent>, latency: u64) -> (commands: Vec<BodyCommand>)
        ensures
            commands@ == spec_plan(events@, self.is_latency_compensation_enabled, latency),
    {
        let mut commands: Vec<BodyCommand> = Vec::new();
        if events.len() == 0 {
            return commands;
        }
        let one_way: i64 = (latency / 2) as i64;
        if self.is_latency_compensation_enabled {
            commands.push(BodyCommand::Step(-one_way));
        }
        let ghost head = commands@;
        let mut i: usize = 0;
        while i < events.len()
            invariant
                i <= events@.len(),
                commands@ == head + spec_commands(events@.take(i as int)),
            decreases events@.len() - i,
        {
            commands.push(command(events[i]));
            assert(commands@ == head + spec_commands(events@.take(i as int + 1)));
            i += 1;
        }
        assert(events@.take(i as int) == events@);
        if self.is_latency_compensation_enabled {
            commands.push(BodyCommand::Step(one_way));
        }
        commands
    }

    /// Takes the input that the avatar `entity` has pending and returns what
    /// is to be done to its body for it.
    pub fn process_user_input(&self, entity: u64, state: &mut World) -> (commands: Vec<
        BodyCommand,
    >)
        requires
            old(state).wf(),
        ensures
            final(state).wf(),
            final(state)@ == old(state)@.put(entity, old(state)@.get(entity).without_input()),
            commands@ == if old(state)@.contains(entity) {
                spec_plan(
                    old(state)@.get(entity).pending_input(),
                    self.is_latency_compensation_enabled,
                    Self::spec_latency(old(state)@.get(entity)),
                )
            } else {
                Seq::empty()
            },
    {
        let latency: u64 = match state.get(entity) {
            Some(e) => match e.latency {
                Some(l) => l.0,
                None => 0,
            },
            None => 0,
        };
        let events = state.take_input_events(entity);
        self.plan(&events, latency)
    }
}

} // verus!
