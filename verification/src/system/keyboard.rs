//! The input of players who sit at this machine: a key that goes down or up
//! becomes input of the avatar that the key drives.

use vstd::prelude::*;
use crate::ecs::{World, WorldView, EntityView};
use crate::input::{spec_key_event, InputEvent};

verus! {

/// The input that the key `keycode` going down or up is for `entity`: none
/// unless the entity is an avatar with a keyboard that binds the key.
pub open spec fn spec_keyboard_event(entity: EntityView, keycode: u32, is_down: bool) -> Option<
    InputEvent,
> {
    match entity.keyboard {
        Some(keyboard) => if entity.gorilla is Some {
            spec_key_event(keyboard.0, keycode, is_down, false)
        } else {
            None
        },
        None => None,
    }
}

/// Where, among `entities`, the first entity is that the key drives; the
/// number of entities where there is none.
pub open spec fn spec_driven(entities: Seq<EntityView>, keycode: u32, is_down: bool) -> int
    decreases entities.len(),
{
    if entities.len() == 0 {
        0
    } else if spec_keyboard_event(entities[0], keycode, is_down) is Some {
        0
    } else {
        1 + spec_driven(entities.skip(1), keycode, is_down)
    }
}

/// The store after the key `keycode` went down or up: the first avatar
/// that the key drives, going up by id, has the input behind the input that
/// it had pending. Where the key drives no avatar, nothing changes.
pub open spec fn spec_after_key(store: WorldView, keycode: u32, is_down: bool) -> WorldView {
    let i = spec_driven(store.entities, keycode, is_down);
    if i < store.entities.len() {
        WorldView {
            entities: store.entities.update(
                i,
                store.entities[i].with_input(
                    spec_keyboard_event(store.entities[i], keycode, is_down)->0,
                ),
            ),
            ..store
        }
    } else {
        store
    }
}

/// Turns the keys of this machine into input of the avatars they drive.
pub struct KeyboardSystem {}

/// Gives the avatar that the key `keycode` drives the input that the key
/// going down or up amounts to.
pub fn process_keyboard_event(state: &mut World, keycode: u32, is_down: bool)
    requires
        old(state).wf(),
    ensures
        final(state).wf(),
        final(state)@ == spec_after_key(old(state)@, keycode, is_down),
{
    let mut ids: Vec<u64> = Vec::new();
    state.collect(&mut ids);
    let count: usize = ids.len();
    let mut i: usize = 0;
    assert(state@.entities.skip(0) == state@.entities);
    while i < count
        invariant
            state.wf(),
            state@ == old(state)@,
            ids@ == state@.collect(),
            count == state@.entities.len(),
            i <= count,
            spec_driven(state@.entities, keycode, is_down) == i + spec_driven(
                state@.entities.skip(i as int),
                keycode,
                is_down,
            ),
        decreases count - i,
    {
        let id: u64 = ids[i];
        proof {
            crate::ecs::lemma_index_of(state@, i as int);
        }
        let found: Option<InputEvent> = match state.get(id) {
            Some(entity) => if entity.gorilla.is_some() {
                match entity.keyboard {
                    Some(keyboard) => crate::input::key_event(&keyboard.0, keycode, is_down, false),
                    None => None,
                }
            } else {
                None
            },
            None => None,
        };
        proof {
            assert(state@.entities.skip(i as int)[0] == state@.entities[i as int]);
            assert(state@.entities.skip(i as int).skip(1) == state@.entities.skip(i as int + 1));
            assert(found == spec_keyboard_event(state@.entities[i as int], keycode, is_down));
        }
        match found {
            Some(event) => {
                proof {
                    crate::ecs::lemma_index_of(state@, i as int);
                    crate::ecs::lemma_wf_preserved(
                        state@,
                        id,
                        state@.get(id).with_input(event),
                    );
                }
                let _ = state.push_input_event(id, event);
                return ;
            },
            None => {},
        }
        i += 1;
    }
}

impl KeyboardSystem {
    /// A key went down. The repeats that a held key keeps sending are no input.
    pub fn key_down(&mut self, state: &mut World, keycode: u32, repeat: bool)
        requires
            old(state).wf(),
        ensures
            final(state).wf(),
            final(state)@ == if repeat {
                old(state)@
            } else {
                spec_after_key(old(state)@, keycode, true)
            },
    {
        if repeat {
            return ;
        }
        process_keyboard_event(state, keycode, true);
    }

    /// A key went up.
    pub fn key_up(&mut self, state: &mut World, keycode: u32)
        requires
            old(state).wf(),
        ensures
            final(state).wf(),
            final(state)@ == spec_after_key(old(state)@, keycode, false),
    {
        process_keyboard_event(state, keycode, false);
    }
}

} // verus!
