//! What the server tells its clients about the entities, and what the
//! messages of a client do to the store.

use vstd::prelude::*;
use crate::component::body::Body;
use crate::component::Latency;
use crate::ecs::{Component, World, WorldView, Entity, EntityView};
use crate::network::{ClientMsg, ServerMsg};

verus! {

/// The messages that tell a client all of one entity: its body, its
/// sprite and that it has the focus, each where the entity has it.
pub open spec fn spec_entity_messages(entity: EntityView) -> Seq<ServerMsg> {
    let body = match entity.body {
        Some(b) => seq![ServerMsg::SetBody(entity.id, b)],
        None => Seq::empty(),
    };
    let sprite = match entity.sprite {
        Some(s) => seq![ServerMsg::SetSprite(entity.id, s)],
        None => Seq::empty(),
    };
    let focus = if entity.focus is Some {
        seq![ServerMsg::SetFocus(entity.id)]
    } else {
        Seq::empty()
    };
    body + sprite + focus
}

/// The messages that tell a client all of the entities, among `entities`,
/// that are told to clients at all, in the order of `entities`.
pub open spec fn spec_snapshot(entities: Seq<EntityView>) -> Seq<ServerMsg>
    decreases entities.len(),
{
    if entities.len() == 0 {
        Seq::empty()
    } else if entities.last().network is Some {
        spec_snapshot(entities.drop_last()) + spec_entity_messages(entities.last())
    } else {
        spec_snapshot(entities.drop_last())
    }
}

/// What a new client is sent: that its avatar has the focus, and then the
/// state of every entity that is told to clients.
pub open spec fn spec_welcome(store: WorldView, avatar: u64) -> Seq<ServerMsg> {
    seq![ServerMsg::SetFocus(avatar)] + spec_snapshot(store.entities)
}

/// Whether the state of `entity` is due for broadcast: it is told to
/// clients, and its body's keyframe has come.
pub open spec fn spec_due(entity: EntityView) -> bool {
    &&& entity.network is Some
    &&& entity.body matches Some(b)
    &&& b.keyframe_due()
}

/// `entity` once its due state has been broadcast: its body counts down to
/// the next keyframe. An entity that is not due stays as it is.
pub open spec fn spec_after_keyframe(entity: EntityView) -> EntityView {
    if spec_due(entity) {
        EntityView { body: Some(entity.body->0.keyframe_reset()), ..entity }
    } else {
        entity
    }
}

/// The messages of a keyframe: all of every entity, among `entities`, whose
/// state is due, with its body as it is after the keyframe.
pub open spec fn spec_keyframe_messages(entities: Seq<EntityView>) -> Seq<ServerMsg>
    decreases entities.len(),
{
    if entities.len() == 0 {
        Seq::empty()
    } else if spec_due(entities.last()) {
        spec_keyframe_messages(entities.drop_last()) + spec_entity_messages(
            spec_after_keyframe(entities.last()),
        )
    } else {
        spec_keyframe_messages(entities.drop_last())
    }
}

/// The store once the keyframe of every entity that is due has been taken.
pub open spec fn spec_after_keyframes(store: WorldView) -> WorldView {
    WorldView {
        entities: Seq::new(store.entities.len(), |k: int| spec_after_keyframe(store.entities[k])),
        ..store
    }
}

/// What a client's message does to the store, where the client's avatar is
/// `entity` and the server's clock reads `now`.
///
/// Input goes behind the input that the avatar has pending. The answer to a
/// probe sets the avatar's latency to the time since the probe was stamped;
/// an answer stamped later than `now` sets nothing. Nothing else has an effect.
pub open spec fn spec_apply_client_msg(store: WorldView, entity: u64, msg: ClientMsg, now: u64)
    -> WorldView {
    match msg {
        ClientMsg::Input(event) => store.put(entity, store.get(entity).with_input(event)),
        ClientMsg::Pong(stamp) => if stamp <= now {
            store.set(entity, Component::Latency(Latency((now - stamp) as u64)))
        } else {
            store
        },
        ClientMsg::Test(_) => store,
    }
}

/// What the messages `msgs` of one client do to the store, taken from the
/// first to the last.
pub open spec fn spec_apply_client_msgs(
    store: WorldView,
    entity: u64,
    msgs: Seq<ClientMsg>,
    now: u64,
) -> WorldView
    decreases msgs.len(),
{
    if msgs.len() == 0 {
        store
    } else {
        spec_apply_client_msg(
            spec_apply_client_msgs(store, entity, msgs.drop_last(), now),
            entity,
            msgs.last(),
            now,
        )
    }
}

/// Puts the messages that tell all of `entity` behind those in `msgs`.
pub fn push_entity_messages(entity: &Entity, msgs: &mut Vec<ServerMsg>)
    ensures
        final(msgs)@ == old(msgs)@ + spec_entity_messages(entity@),
{
    let ghost before = msgs@;
    match entity.body {
        Some(b) => {
            msgs.push(ServerMsg::SetBody(entity.id, b));
        },
        None => {},
    }
    match entity.sprite {
        Some(s) => {
            msgs.push(ServerMsg::SetSprite(entity.id, s));
        },
        None => {},
    }
    if entity.focus.is_some() {
        msgs.push(ServerMsg::SetFocus(entity.id));
    }
    assert(msgs@ == before + spec_entity_messages(entity@));
}

/// The messages that tell a client the state of every entity of `state`
/// that is told to clients, from the lowest id up.
pub fn snapshot(state: &World) -> (msgs: Vec<ServerMsg>)
    requires
        state.wf(),
    ensures
        msgs@ == spec_snapshot(state@.entities),
{
    let mut msgs: Vec<ServerMsg> = Vec::new();
    let mut ids: Vec<u64> = Vec::new();
    state.collect(&mut ids);
    let count: usize = ids.len();
    let mut i: usize = 0;
    while i < count
        invariant
            state.wf(),
            ids@ == state@.collect(),
            count == state@.entities.len(),
            i <= count,
            msgs@ == spec_snapshot(state@.entities.take(i as int)),
        decreases count - i,
    {
        proof {
            crate::ecs::lemma_index_of(state@, i as int);
        }
        match state.get(ids[i]) {
            Some(entity) => {
                proof {
                    let prefix = state@.entities.take(i as int + 1);
                    assert(prefix.drop_last() == state@.entities.take(i as int));
                    assert(prefix.last() == entity@);
                }
                if entity.network.is_some() {
                    push_entity_messages(entity, &mut msgs);
                }
            },
            None => {},
        }
        i += 1;
    }
    assert(state@.entities.take(i as int) == state@.entities);
    msgs
}

/// What a client whose avatar is `avatar` is sent when it joins.
pub fn welcome(state: &World, avatar: u64) -> (msgs: Vec<ServerMsg>)
    requires
        state.wf(),
    ensures
        msgs@ == spec_welcome(state@, avatar),
{
    let mut msgs: Vec<ServerMsg> = Vec::new();
    msgs.push(ServerMsg::SetFocus(avatar));
    let mut rest = snapshot(state);
    msgs.append(&mut rest);
    msgs
}

/// Takes the keyframe of every entity that is due: starts the countdown to
/// its next keyframe, and returns the messages that tell its state.
pub fn take_keyframes(state: &mut World) -> (msgs: Vec<ServerMsg>)
    requires
        old(state).wf(),
    ensures
        final(state).wf(),
        final(state)@ == spec_after_keyframes(old(state)@),
        msgs@ == spec_keyframe_messages(old(state)@.entities),
{
    let mut msgs: Vec<ServerMsg> = Vec::new();
    let mut ids: Vec<u64> = Vec::new();
    state.collect(&mut ids);
    let count: usize = ids.len();
    let ghost before = state@;
    let mut i: usize = 0;
    while i < count
        invariant
            before == old(state)@,
            before.wf(),
            ids@ == before.collect(),
            state.wf(),
            count == before.entities.len(),
            i <= count,
            state@.ids == before.ids,
            state@.entities.len() == count,
            forall|k: int| 0 <= k < i ==> #[trigger] state@.entities[k] == spec_after_keyframe(
                before.entities[k],
            ),
            forall|k: int|
                i <= k < count ==> #[trigger] state@.entities[k] == before.entities[k],
            msgs@ == spec_keyframe_messages(before.entities.take(i as int)),
        decreases count - i,
    {
        let id: u64 = ids[i];
        proof {
            let prefix = before.entities.take(i as int + 1);
            assert(prefix.drop_last() == before.entities.take(i as int));
            assert(prefix.last() == before.entities[i as int]);
            assert(state@.entities[i as int] == before.entities[i as int]);
            crate::ecs::lemma_index_of(state@, i as int);
        }
        let body: Option<Body> = match state.get(id) {
            Some(entity) => if entity.network.is_some() {
                entity.body
            } else {
                None
            },
            None => None,
        };
        {
            match body {
                Some(b) => {
                    let mut b = b;
                    if b.get_is_keyframe_and_reset() {
                        let ghost mid = state@;
                        let _ = state.set(id, Component::Body(b));
                        proof {
                            assert(state@.entities == mid.entities.update(
                                i as int,
                                spec_after_keyframe(before.entities[i as int]),
                            ));
                        }
                        proof {
                            crate::ecs::lemma_index_of(state@, i as int);
                        }
                        match state.get(id) {
                            Some(entity) => {
                                push_entity_messages(entity, &mut msgs);
                            },
                            None => {},
                        }
                    }
                },
                None => {},
            }
        }
        i += 1;
    }
    assert(before.entities.take(i as int) == before.entities);
    assert(state@.entities =~= spec_after_keyframes(before).entities);
    msgs
}

/// Acts on the messages `msgs` that the client with the avatar `entity`
/// sent, where the server's clock reads `now`.
pub fn apply_client_msgs(state: &mut World, entity: u64, msgs: &Vec<ClientMsg>, now: u64)
    requires
        old(state).wf(),
    ensures
        final(state).wf(),
        final(state)@ == spec_apply_client_msgs(old(state)@, entity, msgs@, now),
{
    let mut i: usize = 0;
    while i < msgs.len()
        invariant
            state.wf(),
            i <= msgs@.len(),
            state@ == spec_apply_client_msgs(old(state)@, entity, msgs@.take(i as int), now),
        decreases msgs@.len() - i,
    {
        proof {
            let prefix = msgs@.take(i as int + 1);
            assert(prefix.drop_last() == msgs@.take(i as int));
            assert(prefix.last() == msgs@[i as int]);
        }
        match msgs[i] {
            ClientMsg::Input(input_event) => {
                let _ = state.push_input_event(entity, input_event);
            },
            ClientMsg::Pong(tx_time) => {
                if tx_time <= now {
                    let _ = state.set(entity, Component::Latency(Latency(now - tx_time)));
                }
            },
            ClientMsg::Test(_) => {},
        }
        i += 1;
    }
    assert(msgs@.take(i as int) == msgs@);
}

/// Between `before` and `after` nothing but input, latency and death marks
/// came to the entities: they are the same entities, each with the body, the
/// sprite and the marks that it had, and one that was dead still is.
pub open spec fn spec_same_world(before: WorldView, after: WorldView) -> bool {
    &&& after.ids == before.ids
    &&& after.entities.len() == before.entities.len()
    &&& forall|k: int|
        0 <= k < before.entities.len() ==> {
            let a = before.entities[k];
            let b = #[trigger] after.entities[k];
            &&& b.id == a.id
            &&& b.body == a.body
            &&& b.sprite == a.sprite
            &&& b.keyboard == a.keyboard
            &&& b.focus == a.focus
            &&& b.network == a.network
            &&& b.anchor == a.anchor
            &&& (b.gorilla is Some) == (a.gorilla is Some)
            &&& a.dead is Some ==> b.dead is Some
        }
}

/// What a store is like once a client's messages have been acted on, or
/// entities have been marked dead: nothing but input, latency and death
/// marks came to it.
pub proof fn lemma_same_world(
    store: WorldView,
    entity: u64,
    msgs: Seq<ClientMsg>,
    now: u64,
    ids: Set<u64>,
)
    requires
        store.wf(),
    ensures
        spec_apply_client_msgs(store, entity, msgs, now).wf(),
        spec_same_world(store, spec_apply_client_msgs(store, entity, msgs, now)),
        spec_same_world(store, store.mark_dead(ids)),
    decreases msgs.len(),
{
    crate::ecs::lemma_mark_dead(store, ids, Set::empty(), 0);
    if msgs.len() > 0 {
        lemma_same_world(store, entity, msgs.drop_last(), now, ids);
        let mid = spec_apply_client_msgs(store, entity, msgs.drop_last(), now);
        let after = spec_apply_client_msg(mid, entity, msgs.last(), now);
        match msgs.last() {
            ClientMsg::Input(event) => {
                crate::ecs::lemma_wf_preserved(mid, entity, mid.get(entity).with_input(event));
                if mid.contains(entity) {
                    let i = mid.index_of(entity);
                    assert(mid.get(entity).id == entity);
                }
            },
            ClientMsg::Pong(stamp) => {
                if stamp <= now {
                    let c = Component::Latency(Latency((now - stamp) as u64));
                    if mid.contains(entity) {
                        let i = mid.index_of(entity);
                        assert(mid.get(entity).id == entity);
                    }
                    crate::ecs::lemma_wf_preserved(mid, entity, mid.get(entity).with(c));
                }
            },
            ClientMsg::Test(_) => {},
        }
        assert(after.wf());
        assert(spec_same_world(mid, after));
    }
}

} // verus!
