//! The end of entities that are marked dead.

use vstd::prelude::*;
use crate::ecs::{ComponentKind, World};

verus! {

/// Destroys the entities that are marked dead.
pub struct Teardown;

impl Teardown {
    /// A teardown system.
    pub fn new() -> Teardown {
        Teardown {  }
    }

    /// Destroys every entity of `ecs` that is marked dead, and no other.
    pub fn step(&mut self, ecs: &mut World)
        requires
            old(ecs).wf(),
        ensures
            final(ecs).wf(),
            final(ecs)@.ids == old(ecs)@.ids,
            forall|x: u64| #[trigger]
                final(ecs)@.contains(x) <==> old(ecs)@.contains(x) && old(ecs)@.get(x).dead is None,
            forall|x: u64| #[trigger]
                final(ecs)@.contains(x) ==> final(ecs)@.get(x) == old(ecs)@.get(x),
    {
        let mut filter: Vec<ComponentKind> = Vec::new();
        filter.push(ComponentKind::Dead);
        let mut dead_entities: Vec<u64> = Vec::new();
        ecs.collect_with(&filter, &mut dead_entities);
        proof {
            crate::ecs::lemma_collect_with(ecs@, filter@);
            assert forall|x: u64| #[trigger]
                dead_entities@.contains(x) <==> old(ecs)@.contains(x) && old(ecs)@.get(
                    x,
                ).dead is Some by {
                if old(ecs)@.contains(x) {
                    let e = old(ecs)@.get(x);
                    if e.dead is Some {
                        assert forall|k: int| 0 <= k < filter@.len() implies e.has(
                            #[trigger] filter@[k],
                        ) by {}
                    } else {
                        assert(!e.has(filter@[0]));
                    }
                }
            }
        }
        let count: usize = dead_entities.len();
        let mut i: usize = 0;
        while i < count
            invariant
                ecs.wf(),
                old(ecs).wf(),
                count == dead_entities@.len(),
                i <= count,
                ecs@.ids == old(ecs)@.ids,
                forall|x: u64| #[trigger]
                    dead_entities@.contains(x) <==> old(ecs)@.contains(x) && old(ecs)@.get(
                        x,
                    ).dead is Some,
                forall|x: u64| #[trigger]
                    ecs@.contains(x) <==> old(ecs)@.contains(x) && !dead_entities@.take(
                        i as int,
                    ).contains(x),
                forall|x: u64| #[trigger] ecs@.contains(x) ==> ecs@.get(x) == old(ecs)@.get(x),
            decreases count - i,
        {
            let entity: u64 = dead_entities[i];
            let ghost before = ecs@;
            let _ = ecs.destroy_entity(entity);
            proof {
                crate::ecs::lemma_destroy(before, entity);
                let prefix = dead_entities@.take(i as int);
                let longer = dead_entities@.take(i as int + 1);
                assert(longer == prefix.push(entity));
                assert forall|x: u64| #[trigger]
                    ecs@.contains(x) <==> old(ecs)@.contains(x) && !longer.contains(x) by {
                    if longer.contains(x) {
                        let j = choose|j: int| 0 <= j < longer.len() && longer[j] == x;
                        if j < i {
                            assert(prefix[j] == x);
                            assert(prefix.contains(x));
                        }
                    }
                    if prefix.contains(x) {
                        let j = choose|j: int| 0 <= j < prefix.len() && prefix[j] == x;
                        assert(longer[j] == x);
                    }
                    if x == entity {
                        assert(longer[i as int] == x);
                    }
                }
                assert forall|x: u64| #[trigger] ecs@.contains(x) implies ecs@.get(x)
                    == old(ecs)@.get(x) by {
                    assert(before.contains(x));
                }
            }
            i += 1;
        }
        proof {
            assert(dead_entities@.take(i as int) == dead_entities@);
        }
    }
}

} // verus!
