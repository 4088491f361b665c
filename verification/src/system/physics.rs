//! The passing of time for the bodies of the store.

use vstd::prelude::*;
use crate::component::body::Body;
use crate::ecs::{Component, World, WorldView, EntityView};

verus! {

/// `entity` after `duration` nanoseconds: its body is that much nearer to
/// its next keyframe.
pub open spec fn spec_elapsed(entity: EntityView, duration: i64) -> EntityView {
    match entity.body {
        Some(b) => EntityView { body: Some(b.elapsed(duration)), ..entity },
        None => entity,
    }
}

/// The store after `duration` nanoseconds.
pub open spec fn spec_all_elapsed(store: WorldView, duration: i64) -> WorldView {
    WorldView {
        entities: Seq::new(
            store.entities.len(),
            |k: int| spec_elapsed(store.entities[k], duration),
        ),
        ..store
    }
}

/// Lets time pass for the bodies.
pub struct PhysicsSystem {}

impl PhysicsSystem {
    /// Lets `duration` nanoseconds pass for every body of `state`.
    pub fn update(&mut self, state: &mut World, duration: i64)
        requires
            old(state).wf(),
        ensures
            final(state).wf(),
            final(state)@ == spec_all_elapsed(old(state)@, duration),
    {
        let mut ids: Vec<u64> = Vec::new();
        state.collect(&mut ids);
        let count: usize = ids.len();
        let ghost before = state@;
        let mut i: usize = 0;
        while i < count
            invariant
                before == old(state)@,
                ids@ == before.collect(),
                state.wf(),
                count == before.entities.len(),
                i <= count,
                state@.ids == before.ids,
                state@.entities.len() == count,
                forall|k: int|
                    0 <= k < i ==> #[trigger] state@.entities[k] == spec_elapsed(
                        before.entities[k],
                        duration,
                    ),
                forall|k: int| i <= k < count ==> #[trigger] state@.entities[k]
                    == before.entities[k],
            decreases count - i,
        {
            let id: u64 = ids[i];
            proof {
                crate::ecs::lemma_index_of(state@, i as int);
            }
            let body: Option<Body> = match state.get(id) {
                Some(entity) => entity.body,
                None => None,
            };
            match body {
                Some(b) => {
                    let mut b = b;
                    b.elapse(duration);
                    let ghost mid = state@;
                    let _ = state.set(id, Component::Body(b));
                    proof {
                        assert(state@.entities == mid.entities.update(
                            i as int,
                            spec_elapsed(before.entities[i as int], duration),
                        ));
                    }
                },
                None => {},
            }
            i += 1;
        }
        assert(state@.entities =~= spec_all_elapsed(before, duration).entities);
    }
}

} // verus!
