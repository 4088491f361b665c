//! Where the input of the clients goes: behind the input that waits on the
//! sender's own avatar, and nowhere else.

use vstd::prelude::*;
use crate::ecs::{lemma_contained_below_next, lemma_index_of, lemma_mark_dead, lemma_put, WorldView};
use crate::input::InputEvent;
use crate::network::{ClientMsg, RxChannel, Server, ServerMsg, TxChannel};
use crate::system::messages::{spec_apply_client_msg, spec_apply_client_msgs};
use crate::system::server::{spec_receive_all, ClientStatus, ServerSystem};

verus! {

/// The input that the messages `msgs` carry, in their order.
pub open spec fn spec_inputs(msgs: Seq<ClientMsg>) -> Seq<InputEvent>
    decreases msgs.len(),
{
    if msgs.len() == 0 {
        Seq::empty()
    } else {
        match msgs.last() {
            ClientMsg::Input(event) => spec_inputs(msgs.drop_last()).push(event),
            _ => spec_inputs(msgs.drop_last()),
        }
    }
}

/// The input that the first `n` clients have for the entity `x`, in the
/// order of the clients: that of each client that was connected, still is,
/// and has `x` for its avatar. `ready` holds, for each client, the messages
/// that its channel had ready.
pub open spec fn spec_input_for(
    before: Seq<ClientStatus>,
    after: Seq<ClientStatus>,
    ready: Seq<Seq<ClientMsg>>,
    n: nat,
    x: u64,
) -> Seq<InputEvent>
    decreases n,
{
    if n == 0 {
        Seq::empty()
    } else {
        let i = n - 1;
        let earlier = spec_input_for(before, after, ready, i as nat, x);
        if before[i].connected && after[i].connected && before[i].entity == x {
            earlier + spec_inputs(ready[i])
        } else {
            earlier
        }
    }
}

/// Marking entities dead touches no entity's pending input.
pub proof fn lemma_mark_dead_keeps_input(store: WorldView, ids: Set<u64>, x: u64)
    requires
        store.wf(),
        store.contains(x),
    ensures
        store.mark_dead(ids).wf(),
        store.mark_dead(ids).contains(x),
        store.mark_dead(ids).get(x).gorilla == store.get(x).gorilla,
{
    let marked = store.mark_dead(ids);
    lemma_mark_dead(store, ids, Set::empty(), 0);
    let i = store.index_of(x);
    assert(marked.entities[i].id == x);
    lemma_index_of(marked, i);
}

/// What one message of the client with the avatar `entity` does to the
/// entity `x`: input goes behind the input that waits on `x` where `x` is
/// that avatar, and the pending input of any other entity is left alone.
pub proof fn lemma_client_msg_reaches(
    store: WorldView,
    entity: u64,
    msg: ClientMsg,
    now: u64,
    x: u64,
)
    requires
        store.wf(),
        store.contains(x),
    ensures
        spec_apply_client_msg(store, entity, msg, now).wf(),
        spec_apply_client_msg(store, entity, msg, now).contains(x),
        spec_apply_client_msg(store, entity, msg, now).get(x).gorilla is Some
            == store.get(x).gorilla is Some,
        spec_apply_client_msg(store, entity, msg, now).get(x).pending_input() == if x == entity
            && store.get(x).gorilla is Some {
            store.get(x).pending_input() + spec_inputs(seq![msg])
        } else {
            store.get(x).pending_input()
        },
{
    reveal_with_fuel(spec_inputs, 2);
    assert(seq![msg].drop_last() == Seq::<ClientMsg>::empty());
    assert(seq![msg].last() == msg);
    let pending = store.get(x).pending_input();
    assert(pending + Seq::<InputEvent>::empty() == pending);
    lemma_contained_below_next(store, x);
    match msg {
        ClientMsg::Input(event) => {
            let changed = store.get(entity).with_input(event);
            if store.contains(entity) {
                lemma_contained_below_next(store, entity);
                lemma_put(store, entity, changed);
                assert(pending + seq![event] == pending.push(event));
                assert(Seq::<InputEvent>::empty().push(event) == seq![event]);
            }
        },
        ClientMsg::Pong(stamp) => {
            if stamp <= now && store.contains(entity) {
                lemma_contained_below_next(store, entity);
                lemma_put(
                    store,
                    entity,
                    store.get(entity).with(
                        crate::ecs::Component::Latency(
                            crate::component::Latency((now - stamp) as u64),
                        ),
                    ),
                );
            }
        },
        ClientMsg::Test(_) => {},
    }
}

/// The input that messages carry, one batch behind the other.
pub proof fn lemma_inputs_one_more(msgs: Seq<ClientMsg>, msg: ClientMsg)
    ensures
        spec_inputs(msgs.push(msg)) == spec_inputs(msgs) + spec_inputs(seq![msg]),
{
    reveal_with_fuel(spec_inputs, 2);
    let more = msgs.push(msg);
    assert(more.drop_last() == msgs);
    assert(more.last() == msg);
    assert(seq![msg].drop_last() == Seq::<ClientMsg>::empty());
    assert(seq![msg].last() == msg);
    match msg {
        ClientMsg::Input(event) => {
            assert(spec_inputs(msgs).push(event) == spec_inputs(msgs) + seq![event]);
            assert(Seq::<InputEvent>::empty().push(event) == seq![event]);
        },
        _ => {
            assert(spec_inputs(msgs) + Seq::<InputEvent>::empty() == spec_inputs(msgs));
        },
    }
}

/// What the messages of the client with the avatar `entity` do to the
/// entity `x`: their input, in its order, goes behind the input that waits
/// on `x` where `x` is that avatar, and the pending input of any other
/// entity is left alone.
pub proof fn lemma_client_msgs_reach(
    store: WorldView,
    entity: u64,
    msgs: Seq<ClientMsg>,
    now: u64,
    x: u64,
)
    requires
        store.wf(),
        store.contains(x),
    ensures
        spec_apply_client_msgs(store, entity, msgs, now).wf(),
        spec_apply_client_msgs(store, entity, msgs, now).contains(x),
        spec_apply_client_msgs(store, entity, msgs, now).get(x).gorilla is Some
            == store.get(x).gorilla is Some,
        spec_apply_client_msgs(store, entity, msgs, now).get(x).pending_input() == if x == entity
            && store.get(x).gorilla is Some {
            store.get(x).pending_input() + spec_inputs(msgs)
        } else {
            store.get(x).pending_input()
        },
    decreases msgs.len(),
{
    let pending = store.get(x).pending_input();
    if msgs.len() == 0 {
        assert(pending + Seq::<InputEvent>::empty() == pending);
    } else {
        let front = msgs.drop_last();
        let mid = spec_apply_client_msgs(store, entity, front, now);
        lemma_client_msgs_reach(store, entity, front, now, x);
        lemma_client_msg_reaches(mid, entity, msgs.last(), now, x);
        lemma_inputs_one_more(front, msgs.last());
        assert(front.push(msgs.last()) == msgs);
        assert((pending + spec_inputs(front)) + spec_inputs(seq![msgs.last()]) == pending + (
        spec_inputs(front) + spec_inputs(seq![msgs.last()])));
    }
}

/// Serving the clients puts the input of each behind the input that waits
/// on its own avatar, in the order of the clients, and on no other entity.
///
/// Of an entity `x` that the store held: once the first `n` clients have
/// been served, the store still holds it, and the input that waits on it
/// is what waited before and then what those clients had for it. An entity
/// that is no gorilla has no input waiting, before or after.
pub proof fn theorem_input_reaches_its_avatar(
    store: WorldView,
    before: Seq<ClientStatus>,
    after: Seq<ClientStatus>,
    ready: Seq<Seq<ClientMsg>>,
    now: u64,
    n: nat,
    x: u64,
)
    requires
        store.wf(),
        store.contains(x),
    ensures
        spec_receive_all(store, before, after, ready, now, n).wf(),
        spec_receive_all(store, before, after, ready, now, n).contains(x),
        spec_receive_all(store, before, after, ready, now, n).get(x).gorilla is Some
            == store.get(x).gorilla is Some,
        spec_receive_all(store, before, after, ready, now, n).get(x).pending_input()
            == if store.get(x).gorilla is Some {
            store.get(x).pending_input() + spec_input_for(before, after, ready, n, x)
        } else {
            Seq::<InputEvent>::empty()
        },
    decreases n,
{
    let pending = store.get(x).pending_input();
    if n == 0 {
        assert(pending + Seq::<InputEvent>::empty() == pending);
    } else {
        let i = n - 1;
        let served = spec_receive_all(store, before, after, ready, now, i as nat);
        let earlier = spec_input_for(before, after, ready, i as nat, x);
        theorem_input_reaches_its_avatar(store, before, after, ready, now, i as nat, x);
        if !before[i].connected {
        } else if after[i].connected {
            lemma_client_msgs_reach(served, before[i].entity, ready[i], now, x);
            assert((pending + earlier) + spec_inputs(ready[i]) == pending + (earlier + spec_inputs(
                ready[i],
            )));
        } else {
            lemma_mark_dead_keeps_input(served, set![before[i].entity], x);
        }
    }
}

/// Where no two clients share an avatar, the input that the clients have
/// for the avatar of the `k`-th is the input of the `k`-th, if it was
/// connected and still is, and none otherwise.
pub proof fn theorem_input_comes_from_its_own_client(
    before: Seq<ClientStatus>,
    after: Seq<ClientStatus>,
    ready: Seq<Seq<ClientMsg>>,
    n: nat,
    k: int,
)
    requires
        0 <= k < before.len(),
        n <= before.len(),
        forall|i: int, j: int|
            0 <= i < j < before.len() ==> (#[trigger] before[i]).entity != (
            #[trigger] before[j]).entity,
    ensures
        spec_input_for(before, after, ready, n, before[k].entity) == if k < n
            && before[k].connected && after[k].connected {
            spec_inputs(ready[k])
        } else {
            Seq::<InputEvent>::empty()
        },
    decreases n,
{
    if n > 0 {
        let i = n - 1;
        theorem_input_comes_from_its_own_client(before, after, ready, i as nat, k);
        let earlier = spec_input_for(before, after, ready, i as nat, before[k].entity);
        if i == k {
            assert(Seq::<InputEvent>::empty() + spec_inputs(ready[k]) == spec_inputs(ready[k]));
        } else {
            if i < k {
                assert(before[i].entity != before[k].entity);
            } else {
                assert(before[k].entity != before[i].entity);
            }
        }
    }
}

/// Once the server has served its clients, the input that a client had
/// ready waits on that client's avatar, behind what waited there, and the
/// client's channel has nothing ready any more. This holds of every client
/// that was connected over a channel that was not closed, where no two
/// clients share an avatar.
pub proof fn theorem_served_input_waits_on_the_avatar<TServer, TNetwork>(
    server: &ServerSystem<TServer, TNetwork>,
    after: &ServerSystem<TServer, TNetwork>,
    store: WorldView,
    after_store: WorldView,
    now: u64,
    k: int,
) where TServer: Server<TNetwork>, TNetwork: TxChannel<ServerMsg> + RxChannel<ClientMsg>
    requires
        server.wf(),
        store.wf(),
        server.served(after, store, after_store, now),
        0 <= k < server.status().len(),
        server.status()[k].connected,
        !server.channels()[k].rx_closed(),
        store.contains(server.status()[k].entity),
        store.get(server.status()[k].entity).gorilla is Some,
        forall|i: int, j: int|
            0 <= i < j < server.status().len() ==> (#[trigger] server.status()[i]).entity != (
            #[trigger] server.status()[j]).entity,
    ensures
        after.status()[k].connected,
        after.channels()[k].ready() == Seq::<ClientMsg>::empty(),
        after_store.contains(server.status()[k].entity),
        after_store.get(server.status()[k].entity).pending_input() == store.get(
            server.status()[k].entity,
        ).pending_input() + spec_inputs(server.channels()[k].ready()),
{
    let before = server.status();
    let n = before.len();
    assert(before[k].connected);
    theorem_input_reaches_its_avatar(
        store,
        before,
        after.status(),
        server.ready(),
        now,
        n,
        before[k].entity,
    );
    theorem_input_comes_from_its_own_client(before, after.status(), server.ready(), n, k);
    assert(server.ready()[k] == server.channels()[k].ready());
}

} // verus!
