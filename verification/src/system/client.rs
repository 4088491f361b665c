//! The client's side of the protocol: it mirrors the entities that the
//! server tells it about, answers probes, and reports the player's input.

use vstd::prelude::*;
use std::collections::HashMap;
use crate::component::Focus;
use crate::ecs::{Component, World, WorldView};
use crate::err::GgError;
use crate::input::{key_event, KeyMapping};
use crate::network::{
    lemma_sent_one_more, spec_sent_all, ClientMsg, Duplex, RxChannel, ServerMsg, TxChannel,
};

verus! {

broadcast use vstd::std_specs::hash::group_hash_axioms;

/// A client's mirror as the contracts speak of it: which of its own
/// entities stands for which entity of the server, and its entity store.
pub struct ClientModel {
    pub mapping: Map<u64, u64>,
    pub store: WorldView,
}

/// The server's entity that `msg` gives state to, if it gives any.
pub open spec fn spec_subject(msg: ServerMsg) -> Option<u64> {
    match msg {
        ServerMsg::SetBody(id, _) => Some(id),
        ServerMsg::SetSprite(id, _) => Some(id),
        ServerMsg::SetFocus(id) => Some(id),
        _ => None,
    }
}

/// The component that `msg` attaches to the mirror of its subject.
pub open spec fn spec_payload(msg: ServerMsg) -> Component {
    match msg {
        ServerMsg::SetBody(_, body) => Component::Body(body),
        ServerMsg::SetSprite(_, sprite) => Component::Sprite(sprite),
        _ => Component::Focus(Focus),
    }
}

impl ClientModel {
    /// The mirror of every server entity that the map names is in the store,
    /// and no two server entities share a mirror.
    pub open spec fn consistent(self) -> bool {
        &&& self.store.wf()
        &&& forall|r: u64| #[trigger]
            self.mapping.contains_key(r) ==> self.store.contains(self.mapping[r])
        &&& forall|r1: u64, r2: u64|
            #[trigger] self.mapping.contains_key(r1) && #[trigger] self.mapping.contains_key(r2)
                && r1 != r2 ==> self.mapping[r1] != self.mapping[r2]
    }

    /// Whether `msg` cannot be acted on: its subject has no mirror yet and
    /// the store has given out its last id.
    pub open spec fn blocked(self, msg: ServerMsg) -> bool {
        match spec_subject(msg) {
            Some(id) => !self.mapping.contains_key(id) && self.store.ids == u64::MAX,
            None => false,
        }
    }

    /// The mirror with a local entity for the server's entity `server_id`:
    /// the one that the map names, or else a new one under the store's next id.
    pub open spec fn resolve(self, server_id: u64) -> ClientModel {
        if self.mapping.contains_key(server_id) || self.store.ids == u64::MAX {
            self
        } else {
            ClientModel {
                mapping: self.mapping.insert(server_id, self.store.ids),
                store: self.store.create(),
            }
        }
    }

    /// The mirror after `msg`.
    ///
    /// State for an entity goes to its mirror, which is made first where
    /// there is none. `Kill` destroys the mirror and forgets the entity; for
    /// an entity without a mirror it changes nothing. No other message
    /// touches the mirror, and neither does one that is blocked.
    pub open spec fn apply(self, msg: ServerMsg) -> ClientModel {
        if self.blocked(msg) {
            self
        } else {
            match msg {
                ServerMsg::Kill(id) => if self.mapping.contains_key(id) {
                    ClientModel {
                        mapping: self.mapping.remove(id),
                        store: self.store.destroy(self.mapping[id]),
                    }
                } else {
                    self
                },
                ServerMsg::SetBody(id, _) | ServerMsg::SetSprite(id, _) | ServerMsg::SetFocus(
                    id,
                ) => {
                    let resolved = self.resolve(id);
                    ClientModel {
                        store: resolved.store.set(resolved.mapping[id], spec_payload(msg)),
                        ..resolved
                    }
                },
                _ => self,
            }
        }
    }

    /// The mirror after the messages `msgs`, taken from the first to the last.
    pub open spec fn apply_all(self, msgs: Seq<ServerMsg>) -> ClientModel
        decreases msgs.len(),
    {
        if msgs.len() == 0 {
            self
        } else {
            self.apply_all(msgs.drop_last()).apply(msgs.last())
        }
    }
}

/// What the client answers to `msg`: a probe is echoed with its stamp
/// untouched, and nothing else is answered.
pub open spec fn spec_reply(msg: ServerMsg) -> Option<ClientMsg> {
    match msg {
        ServerMsg::Ping(stamp) => Some(ClientMsg::Pong(stamp)),
        _ => None,
    }
}

/// The answers to `msgs`, in the order of the messages that they answer.
pub open spec fn spec_replies(msgs: Seq<ServerMsg>) -> Seq<ClientMsg>
    decreases msgs.len(),
{
    if msgs.len() == 0 {
        Seq::empty()
    } else {
        match spec_reply(msgs.last()) {
            Some(reply) => spec_replies(msgs.drop_last()).push(reply),
            None => spec_replies(msgs.drop_last()),
        }
    }
}

/// Whether `after` is the transport `before` once the client has read it
/// and handed it the answers `answers`, one after the other. A transport
/// that is closed for reading is left as it was.
pub open spec fn spec_answered<TNetwork: Duplex<ClientMsg, ServerMsg>>(
    before: TNetwork,
    after: TNetwork,
    answers: Seq<ClientMsg>,
) -> bool {
    if before.rx_closed() {
        after == before
    } else {
        exists|read: TNetwork| #[trigger]
            before.drained(&read) && spec_sent_all(read, after, answers)
    }
}

/// The message by which the client reports that a key went down or up: none
/// for a key that drives no button, and none for the repeats of a held key.
pub open spec fn spec_key_message(
    mapping: KeyMapping,
    keycode: u32,
    is_down: bool,
    repeat: bool,
) -> Option<ClientMsg> {
    match crate::input::spec_key_event(mapping, keycode, is_down, repeat) {
        Some(event) => Some(ClientMsg::Input(event)),
        None => None,
    }
}

/// The client's side of the protocol.
pub struct ClientSystem {
    network_entity_id_mapping: HashMap<u64, u64>,
    key_mapping: KeyMapping,
    msg_buffer: Vec<ServerMsg>,
    applied: usize,
    answered: usize,
}

impl ClientSystem {
    /// Which local entity mirrors which entity of the server.
    pub closed spec fn mapping(&self) -> Map<u64, u64> {
        self.network_entity_id_mapping@
    }

    /// The keys that drive the player's buttons.
    pub closed spec fn key_mapping(&self) -> KeyMapping {
        self.key_mapping
    }

    /// The messages that the last `update` took from the server.
    pub closed spec fn inbound(&self) -> Seq<ServerMsg> {
        self.msg_buffer@
    }

    /// How many of those messages, from the first on, have been acted on.
    pub closed spec fn applied(&self) -> int {
        self.applied as int
    }

    /// How many answers to those messages the transport has taken.
    pub closed spec fn answered(&self) -> int {
        self.answered as int
    }

    /// The mirror that this system keeps in `state`.
    pub open spec fn model(&self, state: &World) -> ClientModel {
        ClientModel { mapping: self.mapping(), store: state@ }
    }

    /// A client that mirrors nothing yet.
    pub fn new(key_mapping: KeyMapping) -> (c: ClientSystem)
        ensures
            c.mapping() == Map::<u64, u64>::empty(),
            c.key_mapping() == key_mapping,
            c.inbound() == Seq::<ServerMsg>::empty(),
            c.applied() == 0,
            c.answered() == 0,
    {
        ClientSystem {
            network_entity_id_mapping: HashMap::new(),
            key_mapping,
            msg_buffer: Vec::new(),
            applied: 0,
            answered: 0,
        }
    }

    /// The local entity that mirrors the server's entity `server_id`, if the
    /// map names one.
    pub fn lookup(&self, server_id: u64) -> (local: Option<u64>)
        ensures
            local == if self.mapping().contains_key(server_id) {
                Some(self.mapping()[server_id])
            } else {
                None
            },
    {
        match self.network_entity_id_mapping.get(&server_id) {
            Some(client_id) => Some(*client_id),
            None => None,
        }
    }

    /// The local entity that mirrors the server's entity `server_id`. Where
    /// the map names none, a new entity is made and entered in the map.
    /// There is none to return only once the store has given out its last id.
    fn get_client_entity_id(&mut self, state: &mut World, server_id: u64) -> (local: Option<u64>)
        requires
            old(state).wf(),
        ensures
            final(state).wf(),
            final(self).model(final(state)) == old(self).model(old(state)).resolve(server_id),
            final(self).key_mapping() == old(self).key_mapping(),
            final(self).inbound() == old(self).inbound(),
            final(self).applied() == old(self).applied(),
            final(self).answered() == old(self).answered(),
            match local {
                Some(id) => final(self).mapping().contains_key(server_id) && id
                    == final(self).mapping()[server_id],
                None => !old(self).mapping().contains_key(server_id) && old(state)@.ids
                    == u64::MAX,
            },
    {
        match self.network_entity_id_mapping.get(&server_id) {
            Some(client_id) => Some(*client_id),
            None => {
                match state.create_entity() {
                    Some(client_id) => {
                        self.network_entity_id_mapping.insert(server_id, client_id);
                        Some(client_id)
                    },
                    None => None,
                }
            },
        }
    }

    /// Acts on one message of the server and returns the answer to it, if
    /// it calls for one. Fails, and changes nothing, exactly when the message
    /// is blocked.
    pub fn apply(&mut self, state: &mut World, msg: ServerMsg) -> (r: Result<
        Option<ClientMsg>,
        GgError,
    >)
        requires
            old(state).wf(),
        ensures
            final(state).wf(),
            final(self).model(final(state)) == old(self).model(old(state)).apply(msg),
            final(self).key_mapping() == old(self).key_mapping(),
            final(self).inbound() == old(self).inbound(),
            final(self).applied() == old(self).applied(),
            final(self).answered() == old(self).answered(),
            match r {
                Ok(reply) => !old(self).model(old(state)).blocked(msg) && reply == spec_reply(msg),
                Err(e) => old(self).model(old(state)).blocked(msg) && e.reason()
                    == "out of entity ids"@,
            },
    {
        match msg {
            ServerMsg::SetBody(server_id, body) => {
                match self.get_client_entity_id(state, server_id) {
                    Some(client_id) => {
                        let _ = state.set(client_id, Component::Body(body));
                        Ok(None)
                    },
                    None => Err(GgError::out_of_entity_ids()),
                }
            },
            ServerMsg::SetSprite(server_id, sprite) => {
                match self.get_client_entity_id(state, server_id) {
                    Some(client_id) => {
                        let _ = state.set(client_id, Component::Sprite(sprite));
                        Ok(None)
                    },
                    None => Err(GgError::out_of_entity_ids()),
                }
            },
            ServerMsg::SetFocus(server_id) => {
                match self.get_client_entity_id(state, server_id) {
                    Some(client_id) => {
                        let _ = state.set(client_id, Component::Focus(Focus));
                        Ok(None)
                    },
                    None => Err(GgError::out_of_entity_ids()),
                }
            },
            ServerMsg::Kill(server_id) => {
                match self.network_entity_id_mapping.remove(&server_id) {
                    Some(client_id) => {
                        let _ = state.destroy_entity(client_id);
                    },
                    None => {
                        assert(self.mapping() == old(self).mapping());
                    },
                }
                Ok(None)
            },
            ServerMsg::Ping(tx_time) => Ok(Some(ClientMsg::Pong(tx_time))),
            ServerMsg::Test(_) => Ok(None),
        }
    }

    /// Takes what is ready from the server and acts on it, message by
    /// message, sending each answer as soon as its message is dealt with.
    /// The transport is read once and then handed the answers, and nothing
    /// else is done to it: it has nothing ready afterwards.
    ///
    /// The call fails for one of three reasons, and for no other: the
    /// transport is closed for reading and hands out nothing; a message is
    /// blocked; or the transport is closed for sending and refuses an
    /// answer. The first failure ends the call.
    /// `applied` then tells how many messages have been acted on, none of
    /// them blocked, and `answered` how many of the answers to them the
    /// transport has taken; no message after those has been acted on.
    #[verifier::rlimit(50)]
    pub fn update<TNetwork: Duplex<ClientMsg, ServerMsg>>(
        &mut self,
        server: &mut TNetwork,
        state: &mut World,
    ) -> (r: Result<(), GgError>)
        requires
            old(state).wf(),
        ensures
            final(state).wf(),
            final(self).key_mapping() == old(self).key_mapping(),
            final(server).tx_closed() == old(server).tx_closed(),
            final(server).rx_closed() == old(server).rx_closed(),
            !old(server).rx_closed() ==> final(server).ready() == Seq::<ServerMsg>::empty(),
            final(self).inbound() == if old(server).rx_closed() {
                Seq::<ServerMsg>::empty()
            } else {
                old(server).ready()
            },
            0 <= final(self).applied() <= final(self).inbound().len(),
            final(self).model(final(state)) == old(self).model(old(state)).apply_all(
                final(self).inbound().take(final(self).applied()),
            ),
            forall|k: int|
                0 <= k < final(self).applied() ==> !old(self).model(old(state)).apply_all(
                    final(self).inbound().take(k),
                ).blocked(#[trigger] final(self).inbound()[k]),
            old(self).model(old(state)).consistent() ==> final(self).model(
                final(state),
            ).consistent(),
            ({
                let answers = spec_replies(final(self).inbound().take(final(self).applied()));
                &&& 0 <= final(self).answered() <= answers.len() <= final(self).answered() + 1
                &&& final(self).answered() == if old(server).tx_closed() {
                    0
                } else {
                    answers.len() as int
                }
                &&& final(self).answered() < answers.len() ==> final(self).applied() > 0
                    && spec_reply(final(self).inbound()[final(self).applied() - 1]) is Some
                &&& final(server).outgoing() == old(server).outgoing() + answers.take(
                    final(self).answered(),
                )
                &&& spec_answered(
                    *old(server),
                    *final(server),
                    answers.take(final(self).answered()),
                )
                &&& r is Ok <==> {
                    &&& !old(server).rx_closed()
                    &&& final(self).applied() == final(self).inbound().len()
                    &&& final(self).answered() == answers.len()
                }
                &&& r is Err ==> {
                    ||| old(server).rx_closed()
                    ||| final(self).answered() < answers.len() && old(server).tx_closed()
                    ||| final(self).applied() < final(self).inbound().len()
                        && final(self).model(final(state)).blocked(
                        final(self).inbound()[final(self).applied()],
                    )
                }
            }),
    {
        self.applied = 0;
        self.answered = 0;
        proof {
            if self.model(state).consistent() {
                assert forall|msgs: Seq<ServerMsg>| #[trigger]
                    self.model(state).apply_all(msgs).consistent() by {
                    lemma_apply_all_keeps_consistent(self.model(state), msgs);
                }
            }
        }
        let received = server.dequeue(&mut self.msg_buffer);
        match received {
            Err(e) => {
                self.msg_buffer.clear();
                proof {
                    assert(self.inbound().take(0) == Seq::<ServerMsg>::empty());
                    assert(spec_replies(Seq::<ServerMsg>::empty()).take(0) == Seq::<
                        ClientMsg,
                    >::empty());
                    assert(server.outgoing() + Seq::<ClientMsg>::empty() == server.outgoing());
                }
                return Err(e);
            },
            Ok(()) => {},
        }
        let ghost start = old(self).model(old(state));
        let ghost inbound = self.inbound();
        let ghost held = server.outgoing();
        let ghost read = *server;
        let count: usize = self.msg_buffer.len();
        proof {
            old(server).lemma_read_keeps_sent(server);
            assert(inbound.take(0) == Seq::<ServerMsg>::empty());
            assert(held + Seq::<ClientMsg>::empty() == held);
        }
        while self.applied < count
            invariant
                state.wf(),
                start == old(self).model(old(state)),
                start.consistent() ==> forall|msgs: Seq<ServerMsg>| #[trigger]
                    start.apply_all(msgs).consistent(),
                !old(server).rx_closed(),
                held == old(server).outgoing(),
                inbound == old(server).ready(),
                self.inbound() == inbound,
                count == inbound.len(),
                self.applied <= count,
                self.key_mapping() == old(self).key_mapping(),
                self.model(state) == start.apply_all(inbound.take(self.applied())),
                self.answered <= self.applied,
                self.answered() == spec_replies(inbound.take(self.applied())).len(),
                server.outgoing() == held + spec_replies(inbound.take(self.applied())),
                server.tx_closed() == old(server).tx_closed(),
                old(server).tx_closed() ==> self.answered == 0,
                old(server).drained(&read),
                server.ready() == Seq::<ServerMsg>::empty(),
                server.rx_closed() == old(server).rx_closed(),
                spec_sent_all(read, *server, spec_replies(inbound.take(self.applied()))),
                forall|k: int|
                    0 <= k < self.applied() ==> !start.apply_all(inbound.take(k)).blocked(
                        #[trigger] inbound[k],
                    ),
            ensures
                self.applied == count,
            decreases count - self.applied,
        {
            let msg: ServerMsg = self.msg_buffer[self.applied];
            let ghost answers = spec_replies(inbound.take(self.applied()));
            proof {
                assert(inbound.take(self.applied() + 1).drop_last() == inbound.take(
                    self.applied(),
                ));
                assert(inbound.take(self.applied() + 1).last() == msg);
            }
            let reply = match self.apply(state, msg) {
                Err(e) => {
                    proof {
                        assert(answers.take(answers.len() as int) == answers);
                    }
                    return Err(e);
                },
                Ok(reply) => reply,
            };
            self.applied = self.applied + 1;
            match reply {
                Some(answer) => {
                    let ghost before = *server;
                    match server.enqueue(answer) {
                        Err(e) => {
                            proof {
                                assert(answers.push(answer).take(answers.len() as int) == answers);
                            }
                            return Err(e);
                        },
                        Ok(()) => {
                            self.answered = self.answered + 1;
                            proof {
                                before.lemma_send_keeps_ready(answer, server);
                                let more = answers.push(answer);
                                assert(held + more == (held + answers).push(answer));
                                lemma_sent_one_more(read, before, *server, answers, answer);
                            }
                        },
                    }
                },
                None => {},
            }
        }
        proof {
            let answers = spec_replies(inbound.take(self.applied()));
            assert(answers.take(answers.len() as int) == answers);
        }
        Ok(())
    }

    /// The message, if any, by which a key going down or up is reported.
    pub fn key_message(&self, keycode: u32, is_down: bool, repeat: bool) -> (msg: Option<
        ClientMsg,
    >)
        ensures
            msg == spec_key_message(self.key_mapping(), keycode, is_down, repeat),
    {
        match key_event(&self.key_mapping, keycode, is_down, repeat) {
            Some(event) => Some(ClientMsg::Input(event)),
            None => None,
        }
    }

    /// Reports to the server that a key went down. A key that drives no
    /// button is not reported, nor is a repeat; such a call succeeds. A
    /// report fails exactly when the transport is closed.
    pub fn key_down<TNetwork: TxChannel<ClientMsg>>(
        &self,
        server: &mut TNetwork,
        keycode: u32,
        repeat: bool,
    ) -> (r: Result<(), GgError>)
        ensures
            match spec_key_message(self.key_mapping(), keycode, true, repeat) {
                Some(msg) => {
                    &&& r is Err <==> old(server).tx_closed()
                    &&& r is Ok ==> old(server).sent(msg, final(server))
                    &&& r is Err ==> *final(server) == *old(server)
                    &&& final(server).tx_closed() == old(server).tx_closed()
                    &&& r is Ok ==> final(server).outgoing() == old(server).outgoing().push(msg)
                },
                None => r is Ok && *final(server) == *old(server),
            },
    {
        match self.key_message(keycode, true, repeat) {
            Some(msg) => server.enqueue(msg),
            None => Ok(()),
        }
    }

    /// Reports to the server that a key went up. A key that drives no button
    /// is not reported; such a call succeeds. A report fails exactly when
    /// the transport is closed.
    pub fn key_up<TNetwork: TxChannel<ClientMsg>>(
        &self,
        server: &mut TNetwork,
        keycode: u32,
    ) -> (r: Result<(), GgError>)
        ensures
            match spec_key_message(self.key_mapping(), keycode, false, false) {
                Some(msg) => {
                    &&& r is Err <==> old(server).tx_closed()
                    &&& r is Ok ==> old(server).sent(msg, final(server))
                    &&& r is Err ==> *final(server) == *old(server)
                    &&& final(server).tx_closed() == old(server).tx_closed()
                    &&& r is Ok ==> final(server).outgoing() == old(server).outgoing().push(msg)
                },
                None => r is Ok && *final(server) == *old(server),
            },
    {
        match self.key_message(keycode, false, false) {
            Some(msg) => server.enqueue(msg),
            None => Ok(()),
        }
    }
}

/// Acting on a message keeps a mirror consistent.
pub proof fn lemma_apply_keeps_consistent(m: ClientModel, msg: ServerMsg)
    requires
        m.consistent(),
    ensures
        m.apply(msg).consistent(),
{
    let after = m.apply(msg);
    if m.blocked(msg) {
    } else {
        match msg {
            ServerMsg::Kill(id) => {
                if m.mapping.contains_key(id) {
                    let local = m.mapping[id];
                    crate::ecs::lemma_destroy(m.store, local);
                    assert forall|r: u64| #[trigger]
                        after.mapping.contains_key(r) implies after.store.contains(
                        after.mapping[r],
                    ) by {
                        assert(m.mapping.contains_key(r));
                        assert(m.store.contains(m.mapping[r]));
                    }
                }
            },
            ServerMsg::SetBody(id, _) | ServerMsg::SetSprite(id, _) | ServerMsg::SetFocus(id) => {
                let resolved = m.resolve(id);
                lemma_resolve(m, id);
                let local = resolved.mapping[id];
                let entity = resolved.store.get(local).with(spec_payload(msg));
                crate::ecs::lemma_contained_below_next(resolved.store, local);
                crate::ecs::lemma_put(resolved.store, local, entity);
                assert forall|r: u64| #[trigger]
                    after.mapping.contains_key(r) implies after.store.contains(
                    after.mapping[r],
                ) by {
                    assert(resolved.mapping.contains_key(r));
                    assert(resolved.store.contains(resolved.mapping[r]));
                }
            },
            _ => {},
        }
    }
}

/// Acting on messages, one after the other, keeps a mirror consistent.
pub proof fn lemma_apply_all_keeps_consistent(m: ClientModel, msgs: Seq<ServerMsg>)
    requires
        m.consistent(),
    ensures
        m.apply_all(msgs).consistent(),
    decreases msgs.len(),
{
    if msgs.len() > 0 {
        lemma_apply_all_keeps_consistent(m, msgs.drop_last());
        lemma_apply_keeps_consistent(m.apply_all(msgs.drop_last()), msgs.last());
    }
}

/// Once a mirror has been resolved for an entity that is not blocked, the
/// map names a local entity for it, and the mirror is still consistent. A
/// local entity that had to be made is one that the store did not hold and
/// that no entry of the map named.
pub proof fn lemma_resolve(m: ClientModel, id: u64)
    requires
        m.consistent(),
        m.mapping.contains_key(id) || m.store.ids < u64::MAX,
    ensures
        m.resolve(id).consistent(),
        m.resolve(id).mapping.contains_key(id),
        m.resolve(id).store.contains(m.resolve(id).mapping[id]),
        !m.mapping.contains_key(id) ==> {
            &&& m.resolve(id).mapping[id] == m.store.ids
            &&& !m.store.contains(m.store.ids)
            &&& m.resolve(id).store.get(m.store.ids) == crate::ecs::EntityView::blank(m.store.ids)
            &&& forall|r: u64| #[trigger] m.mapping.contains_key(r) ==> m.mapping[r] != m.store.ids
        },
{
    let resolved = m.resolve(id);
    if !m.mapping.contains_key(id) {
        crate::ecs::lemma_create(m.store);
        assert forall|r: u64| #[trigger] m.mapping.contains_key(r) implies m.mapping[r]
            != m.store.ids by {
            assert(m.store.contains(m.mapping[r]));
        }
        assert forall|r: u64| #[trigger]
            resolved.mapping.contains_key(r) implies resolved.store.contains(
            resolved.mapping[r],
        ) by {
            if r != id {
                assert(m.mapping.contains_key(r));
                assert(m.store.contains(m.mapping[r]));
            }
        }
        assert forall|r1: u64, r2: u64|
            #[trigger] resolved.mapping.contains_key(r1)
                && #[trigger] resolved.mapping.contains_key(
                r2,
            ) && r1 != r2 implies resolved.mapping[r1] != resolved.mapping[r2] by {
            if r1 != id {
                assert(m.mapping.contains_key(r1));
            }
            if r2 != id {
                assert(m.mapping.contains_key(r2));
            }
        }
    }
}

/// An entity of the server that the client is told of, then told to
/// forget, then told of again is mirrored the second time by a new local
/// entity. The first mirror is destroyed by then: the store does not hold
/// it, and no entry of the map names it.
///
/// The two messages that give state must not be blocked: with no id left in
/// the store there is no new entity to make.
pub proof fn theorem_mirror_is_fresh_after_kill(
    m: ClientModel,
    id: u64,
    first: crate::component::body::Body,
    second: crate::component::body::Body,
)
    requires
        m.consistent(),
        !m.blocked(ServerMsg::SetBody(id, first)),
        !m.apply(ServerMsg::SetBody(id, first)).apply(ServerMsg::Kill(id)).blocked(
            ServerMsg::SetBody(id, second),
        ),
    ensures
        ({
            let told = m.apply(ServerMsg::SetBody(id, first));
            let killed = told.apply(ServerMsg::Kill(id));
            let retold = killed.apply(ServerMsg::SetBody(id, second));
            let first_mirror = told.mapping[id];
            let second_mirror = retold.mapping[id];
            &&& told.mapping.contains_key(id)
            &&& told.store.contains(first_mirror)
            &&& told.store.get(first_mirror).body == Some(first)
            &&& !killed.mapping.contains_key(id)
            &&& !killed.store.contains(first_mirror)
            &&& retold.consistent()
            &&& retold.mapping.contains_key(id)
            &&& second_mirror != first_mirror
            &&& retold.store.contains(second_mirror)
            &&& retold.store.get(second_mirror).body == Some(second)
            &&& !retold.store.contains(first_mirror)
            &&& forall|r: u64| #[trigger]
                retold.mapping.contains_key(r) ==> retold.mapping[r] != first_mirror
        }),
{
    let msg1 = ServerMsg::SetBody(id, first);
    let msg3 = ServerMsg::SetBody(id, second);
    let told = m.apply(msg1);
    let killed = told.apply(ServerMsg::Kill(id));
    let retold = killed.apply(msg3);

    // told
    let resolved1 = m.resolve(id);
    lemma_resolve(m, id);
    let first_mirror = resolved1.mapping[id];
    let entity1 = resolved1.store.get(first_mirror).with(spec_payload(msg1));
    crate::ecs::lemma_contained_below_next(resolved1.store, first_mirror);
    crate::ecs::lemma_put(resolved1.store, first_mirror, entity1);
    lemma_apply_keeps_consistent(m, msg1);
    assert(told.mapping[id] == first_mirror);
    crate::ecs::lemma_contained_below_next(told.store, first_mirror);

    // killed
    crate::ecs::lemma_destroy(told.store, first_mirror);
    lemma_apply_keeps_consistent(told, ServerMsg::Kill(id));
    assert(killed.store.ids == told.store.ids);

    // retold
    let resolved3 = killed.resolve(id);
    lemma_resolve(killed, id);
    let second_mirror = resolved3.mapping[id];
    assert(second_mirror == killed.store.ids);
    let entity3 = resolved3.store.get(second_mirror).with(spec_payload(msg3));
    crate::ecs::lemma_create(killed.store);
    crate::ecs::lemma_contained_below_next(resolved3.store, second_mirror);
    crate::ecs::lemma_put(resolved3.store, second_mirror, entity3);
    lemma_apply_keeps_consistent(killed, msg3);
    assert(retold.mapping[id] == second_mirror);
    assert(!retold.store.contains(first_mirror));
    assert forall|r: u64| #[trigger] retold.mapping.contains_key(r) implies retold.mapping[r]
        != first_mirror by {
        assert(retold.store.contains(retold.mapping[r]));
    }
}

} // verus!
