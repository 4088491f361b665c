//! The server's side of the protocol: it takes in new clients, applies what
//! they send, tells them the state of the entities at every keyframe, probes
//! their latency, and tells them of every entity that goes.

use vstd::prelude::*;
use crate::colors::Colors;
use crate::component::body::Vector2;
use crate::component::Dead;
use crate::context::TimerService;
use crate::ecs::{Component, ComponentKind, World, WorldView};
use crate::err::GgError;
use crate::network::{
    lemma_sent_one_more, spec_sent_all, ClientMsg, RxChannel, Server, ServerMsg, TxChannel,
};
use crate::system::gorilla;
use crate::system::gorilla::{spawn_anchors, spawn_gorilla};
use crate::system::messages;
use crate::system::messages::{apply_client_msgs, take_keyframes, welcome};

verus! {

/// Time between two probes of the clients' latency, in nanoseconds.
pub const LATENCY_MEASUREMENT_PERIOD: u64 = 5_000_000_000u64;

/// Bit pattern of `-1.5`.
pub const START_X: u32 = 0xbfc0_0000u32;

/// Bit pattern of `5.0`.
pub const START_Y: u32 = 0x40a0_0000u32;

/// Where a new avatar is put into play.
pub open spec fn spec_start() -> Vector2 {
    Vector2 { x: START_X, y: START_Y }
}

/// Whether the clients' latency is to be probed at `now`: measuring is on,
/// and the time set for the next probe has come.
pub open spec fn spec_measurement_due(next: Option<u64>, now: u64) -> bool {
    match next {
        Some(at) => now >= at,
        None => false,
    }
}

/// A client as the contracts speak of it: its avatar, and whether the
/// connection to it still stands.
pub struct ClientStatus {
    pub entity: u64,
    pub connected: bool,
}

/// Between `before` and `after` the clients and their avatars are the same,
/// and no client has been connected again.
pub open spec fn spec_only_disconnects(
    before: Seq<ClientStatus>,
    after: Seq<ClientStatus>,
) -> bool {
    &&& after.len() == before.len()
    &&& forall|i: int|
        0 <= i < before.len() ==> (#[trigger] after[i]).entity == before[i].entity && (
        after[i].connected ==> before[i].connected)
}

/// The avatars of the clients that were disconnected between `before` and `after`.
pub open spec fn spec_dropped(before: Seq<ClientStatus>, after: Seq<ClientStatus>) -> Set<u64> {
    Set::new(
        |x: u64|
            exists|i: int|
                0 <= i < before.len() && i < after.len() && (#[trigger] before[i]).entity == x
                    && before[i].connected && !after[i].connected,
    )
}

/// What it is for a client to have been sent `msgs` over its channel, which
/// was `before` and now is `after`. Where the channel was open, the client
/// is still connected and the channel has been handed all of `msgs`, in
/// their order, and nothing else has been done to it. Where it was closed
/// and there was a message to send, the client is not connected any more
/// and the channel is as it was.
pub open spec fn spec_handed<TNetwork: TxChannel<ServerMsg>>(
    before: TNetwork,
    after: TNetwork,
    msgs: Seq<ServerMsg>,
    still_connected: bool,
) -> bool {
    &&& still_connected <==> msgs.len() == 0 || !before.tx_closed()
    &&& after.tx_closed() == before.tx_closed()
    &&& after.outgoing() == if still_connected {
        before.outgoing() + msgs
    } else {
        before.outgoing()
    }
    &&& if still_connected {
        spec_sent_all(before, after, msgs)
    } else {
        after == before
    }
}

/// What it is for a client's channel, which was `before` and now is
/// `after`, to have been read. The client is still connected exactly if
/// the channel was not closed; the channel then has nothing ready any more.
/// The read has touched nothing else of the channel.
pub open spec fn spec_heard<TNetwork: RxChannel<ClientMsg>>(
    before: TNetwork,
    after: TNetwork,
    still_connected: bool,
) -> bool {
    &&& still_connected <==> !before.rx_closed()
    &&& after.rx_closed() == before.rx_closed()
    &&& still_connected ==> before.drained(&after) && after.ready() == Seq::<ClientMsg>::empty()
    &&& !still_connected ==> after == before
}

/// The clients of `status` without those whose avatar is `entity`.
pub open spec fn spec_forget(status: Seq<ClientStatus>, entity: u64) -> Seq<ClientStatus>
    decreases status.len(),
{
    if status.len() == 0 {
        Seq::empty()
    } else if status.last().entity == entity {
        spec_forget(status.drop_last(), entity)
    } else {
        spec_forget(status.drop_last(), entity).push(status.last())
    }
}

/// The channels of the clients of `status` without those of the clients
/// whose avatar is `entity`, where `channels` holds the channel of each
/// client of `status`.
pub open spec fn spec_forget_channels<TNetwork>(
    status: Seq<ClientStatus>,
    channels: Seq<TNetwork>,
    entity: u64,
) -> Seq<TNetwork>
    recommends
        channels.len() == status.len(),
    decreases status.len(),
{
    if status.len() == 0 || channels.len() == 0 {
        Seq::empty()
    } else if status.last().entity == entity {
        spec_forget_channels(status.drop_last(), channels.drop_last(), entity)
    } else {
        spec_forget_channels(status.drop_last(), channels.drop_last(), entity).push(
            channels.last(),
        )
    }
}

/// What the clients are told before the entity `entity` of `store` goes:
/// that it goes, if it is one that they are told about, and nothing if not.
pub open spec fn spec_farewell(store: WorldView, entity: u64) -> Seq<ServerMsg> {
    if store.contains(entity) && store.get(entity).network is Some {
        seq![ServerMsg::Kill(entity)]
    } else {
        Seq::empty()
    }
}

/// The store after the first `n` clients have been served, where the
/// server's clock reads `now`: `ready` holds, for each client, the messages
/// that its channel had ready; `before` and `after` tell who was connected
/// before and who still is. A client that was connected and still is had
/// its messages acted on. One that was disconnected on the way has its
/// avatar marked dead. One that was not connected was passed over.
pub open spec fn spec_receive_all(
    store: WorldView,
    before: Seq<ClientStatus>,
    after: Seq<ClientStatus>,
    ready: Seq<Seq<ClientMsg>>,
    now: u64,
    n: nat,
) -> WorldView
    decreases n,
{
    if n == 0 {
        store
    } else {
        let served = spec_receive_all(store, before, after, ready, now, (n - 1) as nat);
        let i = n - 1;
        if !before[i].connected {
            served
        } else if after[i].connected {
            messages::spec_apply_client_msgs(served, before[i].entity, ready[i], now)
        } else {
            served.mark_dead(set![before[i].entity])
        }
    }
}

/// The avatar that the `k`-th client to join gets, where the spectrum of
/// colours stood at `position` before the first joined.
pub open spec fn spec_avatar(position: int, k: int) -> crate::ecs::EntityView {
    gorilla::spec_gorilla(
        spec_start(),
        crate::colors::spectrum((position + k) % 6),
        None,
        false,
    )
}

/// The store after the clients `joined` have been taken in, in their order,
/// where the spectrum of colours stood at `position` before: each has a new
/// avatar, and the avatar of one that was disconnected while it was being
/// welcomed is marked dead.
pub open spec fn spec_joined(
    store: WorldView,
    position: int,
    joined: Seq<ClientStatus>,
) -> WorldView
    decreases joined.len(),
{
    if joined.len() == 0 {
        store
    } else {
        let before = spec_joined(store, position, joined.drop_last());
        before.spawn(spec_avatar(position, joined.len() - 1)).mark_dead(
            if joined.last().connected {
                Set::empty()
            } else {
                set![before.ids]
            },
        )
    }
}

/// Whether each of the clients `status`, which joined in this order over
/// the channels `waiting` when the store was `store` and the spectrum of
/// colours stood at `position`, has the avatar made for it and has been
/// sent its welcome: that its avatar has the focus, and then the state of
/// every entity that clients were told of when it joined, its own avatar
/// among them. `channels` are the clients' channels as they are now.
#[verifier::opaque]
pub open spec fn spec_welcomed<TNetwork: TxChannel<ServerMsg>>(
    waiting: Seq<TNetwork>,
    status: Seq<ClientStatus>,
    channels: Seq<TNetwork>,
    store: WorldView,
    position: int,
) -> bool {
    forall|k: int|
        0 <= k < status.len() ==> {
            &&& (#[trigger] status[k]).entity == store.ids + k
            &&& spec_handed(
                waiting[k],
                channels[k],
                messages::spec_welcome(
                    spec_joined(store, position, status.take(k)).spawn(spec_avatar(position, k)),
                    (store.ids + k) as u64,
                ),
                status[k].connected,
            )
        }
}

/// Where no client has joined, all that joined have been welcomed.
pub proof fn lemma_welcomed_none<TNetwork: TxChannel<ServerMsg>>(
    waiting: Seq<TNetwork>,
    store: WorldView,
    position: int,
)
    ensures
        spec_welcomed(waiting, Seq::empty(), Seq::empty(), store, position),
{
    reveal(spec_welcomed);
}

/// Clients that have been welcomed stay so when one more joins and is welcomed.
pub proof fn lemma_welcomed_one_more<TNetwork: TxChannel<ServerMsg>>(
    waiting: Seq<TNetwork>,
    status: Seq<ClientStatus>,
    channels: Seq<TNetwork>,
    store: WorldView,
    position: int,
    client: ClientStatus,
    channel: TNetwork,
)
    requires
        spec_welcomed(waiting, status, channels, store, position),
        channels.len() == status.len(),
        client.entity == store.ids + status.len(),
        spec_handed(
            waiting[status.len() as int],
            channel,
            messages::spec_welcome(
                spec_joined(store, position, status).spawn(
                    spec_avatar(position, status.len() as int),
                ),
                (store.ids + status.len()) as u64,
            ),
            client.connected,
        ),
    ensures
        spec_welcomed(waiting, status.push(client), channels.push(channel), store, position),
{
    reveal(spec_welcomed);
    let more = status.push(client);
    let ends = channels.push(channel);
    assert forall|k: int| 0 <= k < more.len() implies {
        &&& (#[trigger] more[k]).entity == store.ids + k
        &&& spec_handed(
            waiting[k],
            ends[k],
            messages::spec_welcome(
                spec_joined(store, position, more.take(k)).spawn(spec_avatar(position, k)),
                (store.ids + k) as u64,
            ),
            more[k].connected,
        )
    } by {
        if k < status.len() {
            assert(more[k] == status[k]);
            assert(ends[k] == channels[k]);
            assert(more.take(k) =~= status.take(k));
        } else {
            assert(more.take(k) =~= status);
        }
    }
}

/// Whether all clients but the `i`-th, and their channels, are as they
/// were then.
pub open spec fn spec_others_kept<T>(
    then: Seq<ClientStatus>,
    now: Seq<ClientStatus>,
    then_channels: Seq<T>,
    now_channels: Seq<T>,
    i: int,
) -> bool {
    &&& now.len() == then.len()
    &&& forall|j: int|
        0 <= j < then.len() && j != i ==> #[trigger] now[j] == then[j] && now_channels[j]
            == then_channels[j]
}

/// Where the clients from the `i`-th on were as at first and all but the
/// `i`-th are as they were then, the clients after the `i`-th are as at
/// first, and those before it are as they were then.
pub proof fn lemma_untouched_after<T>(
    first: Seq<ClientStatus>,
    then: Seq<ClientStatus>,
    now: Seq<ClientStatus>,
    first_channels: Seq<T>,
    then_channels: Seq<T>,
    now_channels: Seq<T>,
    i: int,
)
    requires
        0 <= i,
        spec_untouched_from(first, then, first_channels, then_channels, i),
        spec_others_kept(then, now, then_channels, now_channels, i),
    ensures
        spec_untouched_from(first, now, first_channels, now_channels, i + 1),
        forall|j: int| 0 <= j < i && j < then.len() ==> #[trigger] then[j] == now[j],
{
    assert forall|j: int| 0 <= j < i && j < then.len() implies #[trigger] then[j] == now[j] by {
        assert(now[j] == then[j]);
    }
    assert forall|j: int| i + 1 <= j < now.len() implies #[trigger] now[j] == first[j]
        && now_channels[j] == first_channels[j] by {
        assert(now[j] == then[j]);
        assert(then[j] == first[j]);
    }
}

/// Whether the clients from the `from`-th on, and their channels, are as
/// they were at first.
pub open spec fn spec_untouched_from<T>(
    first: Seq<ClientStatus>,
    now: Seq<ClientStatus>,
    first_channels: Seq<T>,
    now_channels: Seq<T>,
    from: int,
) -> bool {
    forall|j: int|
        from <= j < now.len() ==> #[trigger] now[j] == first[j] && now_channels[j]
            == first_channels[j]
}

/// Disconnecting in two goes comes to disconnecting all at once.
pub proof fn lemma_dropped_compose(
    a: Seq<ClientStatus>,
    b: Seq<ClientStatus>,
    c: Seq<ClientStatus>,
)
    requires
        spec_only_disconnects(a, b),
        spec_only_disconnects(b, c),
    ensures
        spec_only_disconnects(a, c),
        spec_dropped(a, b).union(spec_dropped(b, c)) == spec_dropped(a, c),
        spec_dropped(a, a) == Set::<u64>::empty(),
{
    assert forall|i: int| 0 <= i < a.len() implies (#[trigger] c[i]).entity == a[i].entity && (
    c[i].connected ==> a[i].connected) by {
        assert(b[i].entity == a[i].entity);
    }
    assert forall|x: u64|
        spec_dropped(a, b).union(spec_dropped(b, c)).contains(x) <==> spec_dropped(a, c).contains(
            x,
        ) by {
        if spec_dropped(a, b).contains(x) {
            let i = choose|i: int|
                0 <= i < a.len() && i < b.len() && (#[trigger] a[i]).entity == x && a[i].connected
                    && !b[i].connected;
            assert(c[i].entity == b[i].entity);
            assert(a[i].entity == x && a[i].connected && !c[i].connected);
        }
        if spec_dropped(b, c).contains(x) {
            let i = choose|i: int|
                0 <= i < b.len() && i < c.len() && (#[trigger] b[i]).entity == x && b[i].connected
                    && !c[i].connected;
            assert(b[i].entity == a[i].entity);
            assert(a[i].entity == x && a[i].connected && !c[i].connected);
        }
        if spec_dropped(a, c).contains(x) {
            let i = choose|i: int|
                0 <= i < a.len() && i < c.len() && (#[trigger] a[i]).entity == x && a[i].connected
                    && !c[i].connected;
            assert(b[i].entity == a[i].entity);
            if b[i].connected {
                assert(b[i].entity == x && b[i].connected && !c[i].connected);
            } else {
                assert(a[i].entity == x && a[i].connected && !b[i].connected);
            }
        }
    }
    assert(spec_dropped(a, b).union(spec_dropped(b, c)) =~= spec_dropped(a, c));
    assert(spec_dropped(a, a) =~= Set::<u64>::empty());
}

/// Where all but the `i`-th client are as they were, the `i`-th is the only
/// one that can have been disconnected.
pub proof fn lemma_dropped_one(a: Seq<ClientStatus>, b: Seq<ClientStatus>, i: int)
    requires
        spec_only_disconnects(a, b),
        0 <= i < a.len(),
        forall|j: int| 0 <= j < a.len() && j != i ==> #[trigger] b[j] == a[j],
    ensures
        spec_dropped(a, b) == if a[i].connected && !b[i].connected {
            set![a[i].entity]
        } else {
            Set::<u64>::empty()
        },
{
    let one: Set<u64> = if a[i].connected && !b[i].connected {
        set![a[i].entity]
    } else {
        Set::<u64>::empty()
    };
    assert(b[i].entity == a[i].entity);
    assert forall|x: u64| spec_dropped(a, b).contains(x) <==> one.contains(x) by {
        if spec_dropped(a, b).contains(x) {
            let w = choose|w: int|
                0 <= w < a.len() && w < b.len() && (#[trigger] a[w]).entity == x && a[w].connected
                    && !b[w].connected;
            if w != i {
                assert(b[w] == a[w]);
            }
        }
        if one.contains(x) {
            assert(a[i].entity == x && a[i].connected && !b[i].connected);
        }
    }
    assert(spec_dropped(a, b) =~= one);
}

/// What the first `n` clients being served does to the store depends on
/// those clients alone.
pub proof fn lemma_receive_all_of_first(
    store: WorldView,
    before: Seq<ClientStatus>,
    after: Seq<ClientStatus>,
    other: Seq<ClientStatus>,
    ready: Seq<Seq<ClientMsg>>,
    now: u64,
    n: nat,
)
    requires
        forall|j: int| 0 <= j < n ==> #[trigger] after[j] == other[j],
    ensures
        spec_receive_all(store, before, after, ready, now, n) == spec_receive_all(
            store,
            before,
            other,
            ready,
            now,
            n,
        ),
    decreases n,
{
    if n > 0 {
        lemma_receive_all_of_first(store, before, after, other, ready, now, (n - 1) as nat);
        assert(after[n - 1] == other[n - 1]);
    }
}

/// The clients left when those with the avatar `entity` have been
/// forgotten are clients that were there, and none has that avatar.
pub proof fn lemma_forget(status: Seq<ClientStatus>, entity: u64)
    ensures
        forall|j: int|
            0 <= j < spec_forget(status, entity).len() ==> {
                &&& (#[trigger] spec_forget(status, entity)[j]).entity != entity
                &&& exists|v: int|
                    0 <= v < status.len() && (#[trigger] status[v]) == spec_forget(
                        status,
                        entity,
                    )[j]
            },
    decreases status.len(),
{
    if status.len() > 0 {
        lemma_forget(status.drop_last(), entity);
        let shorter = spec_forget(status.drop_last(), entity);
        let left = spec_forget(status, entity);
        assert forall|j: int| 0 <= j < left.len() implies {
            &&& (#[trigger] left[j]).entity != entity
            &&& exists|v: int| 0 <= v < status.len() && (#[trigger] status[v]) == left[j]
        } by {
            if j < shorter.len() {
                assert(left[j] == shorter[j]);
                let v = choose|v: int|
                    0 <= v < status.drop_last().len() && (#[trigger] status.drop_last()[v])
                        == shorter[j];
                assert(status[v] == left[j]);
            } else {
                assert(status[status.len() - 1] == left[j]);
            }
        }
    }
}

/// Each client that joins takes one id of the store.
pub proof fn lemma_joined_ids(store: WorldView, position: int, joined: Seq<ClientStatus>)
    requires
        store.ids + joined.len() <= u64::MAX,
    ensures
        spec_joined(store, position, joined).ids == store.ids + joined.len(),
    decreases joined.len(),
{
    if joined.len() > 0 {
        lemma_joined_ids(store, position, joined.drop_last());
    }
}

/// A client as the server keeps it: its avatar, the server's end of the
/// connection to it, and whether the connection still stands. A client that
/// has been disconnected stays so.
pub struct Client<TNetwork> where TNetwork: TxChannel<ServerMsg> + RxChannel<ClientMsg> {
    pub entity: u64,
    pub channel: TNetwork,
    pub connected: bool,
}

/// The server's side of the protocol.
pub struct ServerSystem<TServer, TNetwork> where
    TServer: Server<TNetwork>,
    TNetwork: TxChannel<ServerMsg> + RxChannel<ClientMsg>,
 {
    server: TServer,
    new_client_buffer: Vec<TNetwork>,
    clients: Vec<Client<TNetwork>>,
    msg_buffer: Vec<ClientMsg>,
    colors: Colors,
    next_latency_measurement_time: Option<u64>,
}

impl<TServer, TNetwork> ServerSystem<TServer, TNetwork> where
    TServer: Server<TNetwork>,
    TNetwork: TxChannel<ServerMsg> + RxChannel<ClientMsg>,
 {
    /// The clients, in the order in which they joined.
    pub closed spec fn status(&self) -> Seq<ClientStatus> {
        Seq::new(
            self.clients@.len(),
            |i: int|
                ClientStatus {
                    entity: self.clients@[i].entity,
                    connected: self.clients@[i].connected,
                },
        )
    }

    /// The server's end of the connection to each client.
    pub closed spec fn channels(&self) -> Seq<TNetwork> {
        Seq::new(self.clients@.len(), |i: int| self.clients@[i].channel)
    }

    /// What the channel of each client has ready.
    pub open spec fn ready(&self) -> Seq<Seq<ClientMsg>> {
        Seq::new(self.channels().len(), |i: int| self.channels()[i].ready())
    }

    /// The colours that new avatars get.
    pub closed spec fn colors(&self) -> Colors {
        self.colors
    }

    /// When the clients' latency is to be probed next; never, where
    /// latency is not measured.
    pub closed spec fn next_measurement(&self) -> Option<u64> {
        self.next_latency_measurement_time
    }

    /// The registry that the server takes its new clients from.
    pub closed spec fn registry(&self) -> TServer {
        self.server
    }

    /// Whether the server is in order: every method keeps it so.
    pub open spec fn wf(&self) -> bool {
        &&& self.colors().wf()
        &&& self.channels().len() == self.status().len()
    }

    /// Whether nothing but the clients has changed from `self` to `after`.
    pub open spec fn same_settings(&self, after: &Self) -> bool {
        &&& after.colors() == self.colors()
        &&& after.next_measurement() == self.next_measurement()
        &&& after.registry() == self.registry()
    }

    /// What it is for the server to have sent `msgs` to its clients, where
    /// `self` is the server before, `after` the server after, and `store` and
    /// `after_store` the store before and after.
    ///
    /// The clients are the same, and none is connected again. Each client
    /// that was connected and whose channel was open is still connected and
    /// has been handed the messages, in their order. A client whose channel
    /// was closed is not connected any more, where there was a message to
    /// send, and has been handed nothing. The channels of the clients that
    /// were not connected are as they were. The avatars of the clients that
    /// were disconnected are marked dead, and nothing else has changed in
    /// the store.
    pub open spec fn sent_to_all(
        &self,
        after: &Self,
        store: WorldView,
        after_store: WorldView,
        msgs: Seq<ServerMsg>,
    ) -> bool {
        &&& after.wf()
        &&& spec_only_disconnects(self.status(), after.status())
        &&& forall|j: int|
            0 <= j < self.status().len() && (#[trigger] self.status()[j]).connected ==> {
                &&& spec_handed(
                    self.channels()[j],
                    after.channels()[j],
                    msgs,
                    after.status()[j].connected,
                )
            }
        &&& forall|j: int|
            0 <= j < self.status().len() && !(#[trigger] self.status()[j]).connected
                ==> after.channels()[j] == self.channels()[j]
        &&& msgs.len() == 0 ==> after.status() == self.status() && after.channels()
            == self.channels()
        &&& after_store == store.mark_dead(spec_dropped(self.status(), after.status()))
    }

    /// What it is for the server to have taken in the clients that were
    /// waiting at the registry, in their order, for as long as the store had
    /// an id left for an avatar.
    ///
    /// The clients that the server had are as they were, and so are the
    /// entities that the store held. Each client taken in has a new avatar,
    /// in the next colour of the spectrum, and has been sent its welcome.
    pub open spec fn took_in(
        &self,
        after: &Self,
        store: WorldView,
        after_store: WorldView,
    ) -> bool {
        let count = self.status().len() as int;
        let waiting = self.registry().waiting();
        let position = self.colors().position();
        let joined = after.status().skip(count);
        &&& after.wf()
        &&& after.next_measurement() == self.next_measurement()
        &&& after.registry().waiting() == Seq::<TNetwork>::empty()
        &&& after.colors().position() == (position + waiting.len()) % 6
        &&& after.status().len() >= count
        &&& joined.len() == if waiting.len() <= u64::MAX - store.ids {
            waiting.len() as int
        } else {
            u64::MAX - store.ids
        }
        &&& after.status().take(count) == self.status()
        &&& after.channels().take(count) == self.channels()
        &&& after_store == spec_joined(store, position, joined)
        &&& spec_welcomed(waiting, joined, after.channels().skip(count), store, position)
    }

    /// What it is for the server to have taken what each connected client
    /// had sent and to have acted on it, where its clock read `now`.
    ///
    /// The clients are the same, and none is connected again. A client that
    /// was connected still is exactly if its channel was not closed: its
    /// channel has then handed out all that it had ready, and the messages
    /// have been acted on. The avatar of one that was disconnected is marked
    /// dead. The channels of the clients that were not connected are as
    /// they were.
    pub open spec fn served(
        &self,
        after: &Self,
        store: WorldView,
        after_store: WorldView,
        now: u64,
    ) -> bool {
        &&& after.wf()
        &&& self.same_settings(after)
        &&& spec_only_disconnects(self.status(), after.status())
        &&& forall|j: int|
            0 <= j < self.status().len() && (#[trigger] self.status()[j]).connected
                ==> spec_heard(
                self.channels()[j],
                after.channels()[j],
                after.status()[j].connected,
            )
        &&& forall|j: int|
            0 <= j < self.status().len() && !(#[trigger] self.status()[j]).connected
                ==> after.channels()[j] == self.channels()[j]
        &&& after_store == spec_receive_all(
            store,
            self.status(),
            after.status(),
            self.ready(),
            now,
            self.status().len(),
        )
    }

    /// What it is for the server to have probed its clients' latency if a
    /// probe was due when its clock read `now`: each client has been sent a
    /// `Ping` stamped `now`, and the next probe is due one period on. Where
    /// no probe was due, nothing has changed.
    pub open spec fn probed(
        &self,
        after: &Self,
        store: WorldView,
        after_store: WorldView,
        now: u64,
    ) -> bool {
        &&& after.colors() == self.colors()
        &&& after.registry() == self.registry()
        &&& if spec_measurement_due(self.next_measurement(), now) {
            &&& after.next_measurement() == Some((now + LATENCY_MEASUREMENT_PERIOD) as u64)
            &&& self.sent_to_all(after, store, after_store, seq![ServerMsg::Ping(now)])
        } else {
            &&& after.wf()
            &&& after.next_measurement() == self.next_measurement()
            &&& after.status() == self.status()
            &&& after.channels() == self.channels()
            &&& after_store == store
        }
    }

    /// What it is for the server to have made one tick, where its clock read
    /// `now`: it has taken in the new clients, then acted on what the clients
    /// had sent, then told them the keyframes that were due, then probed
    /// their latency if a probe was due.
    pub open spec fn ticked(
        &self,
        after: &Self,
        store: WorldView,
        after_store: WorldView,
        now: u64,
    ) -> bool {
        exists|a: Self, sa: WorldView, b: Self, sb: WorldView, c: Self, sc: WorldView|
            #![trigger
                self.took_in(&a, store, sa),
                a.served(&b, sa, sb, now),
                c.probed(after, sc, after_store, now),
            ]
            {
                &&& self.took_in(&a, store, sa)
                &&& a.served(&b, sa, sb, now)
                &&& b.same_settings(&c)
                &&& b.sent_to_all(
                    &c,
                    messages::spec_after_keyframes(sb),
                    sc,
                    messages::spec_keyframe_messages(sb.entities),
                )
                &&& c.probed(after, sc, after_store, now)
            }
    }

    /// What it is for the server to have been updated when its clock read
    /// `now`. Where a probe of the clients' latency was due and the time of
    /// the next probe would be beyond what the clock can tell, the update
    /// has failed and nothing has changed. Otherwise it has succeeded, and
    /// the server has made one tick.
    pub open spec fn updated(
        &self,
        after: &Self,
        store: WorldView,
        after_store: WorldView,
        now: u64,
        succeeded: bool,
    ) -> bool {
        if spec_measurement_due(self.next_measurement(), now) && now > u64::MAX
            - LATENCY_MEASUREMENT_PERIOD {
            &&& !succeeded
            &&& after.status() == self.status()
            &&& after.channels() == self.channels()
            &&& self.same_settings(after)
            &&& after_store == store
        } else {
            &&& succeeded
            &&& self.ticked(after, store, after_store, now)
        }
    }

    /// What it is for the server to have torn down the entity `entity`: it
    /// has told its clients that the entity goes, then forgotten the clients
    /// whose avatar it is, and then the entity has left the store.
    pub open spec fn tore_down(
        &self,
        after: &Self,
        store: WorldView,
        after_store: WorldView,
        entity: u64,
    ) -> bool {
        exists|told: Self, told_store: WorldView|
            #![trigger self.sent_to_all(&told, store, told_store, spec_farewell(store, entity))]
            {
                &&& self.sent_to_all(&told, store, told_store, spec_farewell(store, entity))
                &&& self.same_settings(after)
                &&& after.wf()
                &&& after.status() == spec_forget(told.status(), entity)
                &&& after.channels() == spec_forget_channels(
                    told.status(),
                    told.channels(),
                    entity,
                )
                &&& after_store == told_store.destroy(entity)
            }
    }

    /// What it is for the server to have torn down the entities `dead`, one
    /// after the other.
    pub open spec fn tore_down_all(
        &self,
        after: &Self,
        store: WorldView,
        after_store: WorldView,
        dead: Seq<u64>,
    ) -> bool
        decreases dead.len(),
    {
        if dead.len() == 0 {
            &&& after.wf()
            &&& self.same_settings(after)
            &&& after.status() == self.status()
            &&& after.channels() == self.channels()
            &&& after_store == store
        } else {
            exists|mid: Self, mid_store: WorldView|
                #![trigger mid.tore_down(after, mid_store, after_store, dead.last())]
                {
                    &&& self.tore_down_all(&mid, store, mid_store, dead.drop_last())
                    &&& mid.tore_down(after, mid_store, after_store, dead.last())
                }
        }
    }

    /// A server without clients. With latency compensation, latency is
    /// measured from the first tick on; without, never.
    pub fn new(server: TServer, is_latency_compensation_enabled: bool) -> (r: Result<
        Self,
        GgError,
    >)
        ensures
            r matches Ok(s) && {
                &&& s.wf()
                &&& s.status().len() == 0
                &&& s.registry() == server
                &&& s.colors().position() == 0
                &&& s.next_measurement() == if is_latency_compensation_enabled {
                    Some(0u64)
                } else {
                    None
                }
            },
    {
        Ok(
            ServerSystem {
                server,
                new_client_buffer: Vec::new(),
                clients: Vec::new(),
                msg_buffer: Vec::new(),
                colors: Colors::new(),
                next_latency_measurement_time: if is_latency_compensation_enabled {
                    Some(0u64)
                } else {
                    None
                },
            },
        )
    }

    /// The number of clients that ever joined and have not been forgotten.
    pub fn client_count(&self) -> (n: usize)
        ensures
            n == self.status().len(),
    {
        self.clients.len()
    }

    /// The avatar of the `i`-th client and whether the client is connected.
    pub fn client(&self, i: usize) -> (c: (u64, bool))
        requires
            i < self.status().len(),
        ensures
            c.0 == self.status()[i as int].entity,
            c.1 == self.status()[i as int].connected,
    {
        (self.clients[i].entity, self.clients[i].connected)
    }

    /// The server's end of the connection to the `i`-th client.
    pub fn channel_mut(&mut self, i: usize) -> (channel: &mut TNetwork)
        requires
            i < old(self).status().len(),
        ensures
            *channel == old(self).channels()[i as int],
            final(self).status() == old(self).status(),
            final(self).channels() == old(self).channels().update(i as int, *final(channel)),
            old(self).same_settings(final(self)),
    {
        &mut self.clients[i].channel
    }

    /// Marks the `i`-th client as disconnected, and its avatar as dead.
    fn disconnect_client(&mut self, state: &mut World, i: usize)
        requires
            old(self).wf(),
            old(state).wf(),
            i < old(self).status().len(),
        ensures
            final(self).wf(),
            final(state).wf(),
            final(self).status() == old(self).status().update(
                i as int,
                ClientStatus { connected: false, ..old(self).status()[i as int] },
            ),
            final(self).channels() == old(self).channels(),
            old(self).same_settings(final(self)),
            final(state)@ == old(state)@.mark_dead(set![old(self).status()[i as int].entity]),
    {
        proof {
            crate::ecs::lemma_mark_dead(
                state@,
                Set::empty(),
                Set::empty(),
                self.status()[i as int].entity,
            );
        }
        self.clients[i].connected = false;
        let _ = state.set(self.clients[i].entity, Component::Dead(Dead));
        assert(self.status() =~= old(self).status().update(
            i as int,
            ClientStatus { connected: false, ..old(self).status()[i as int] },
        ));
        assert(self.channels() =~= old(self).channels());
    }

    /// Sends `msgs`, in their order, to the `i`-th client if it is
    /// connected. The client is disconnected as soon as its channel refuses
    /// a message, and is sent nothing more.
    fn send_all_to(&mut self, state: &mut World, i: usize, msgs: &Vec<ServerMsg>)
        requires
            old(self).wf(),
            old(state).wf(),
            i < old(self).status().len(),
        ensures
            final(self).wf(),
            final(state).wf(),
            old(self).same_settings(final(self)),
            spec_only_disconnects(old(self).status(), final(self).status()),
            forall|j: int|
                0 <= j < old(self).status().len() && j != i ==> #[trigger] final(self).status()[j]
                    == old(self).status()[j] && final(self).channels()[j]
                        == old(self).channels()[j],
            !old(self).status()[i as int].connected || msgs@.len() == 0 ==> final(self).status()
                == old(self).status() && final(self).channels() == old(self).channels(),
            old(self).status()[i as int].connected ==> {
                &&& spec_handed(
                    old(self).channels()[i as int],
                    final(self).channels()[i as int],
                    msgs@,
                    final(self).status()[i as int].connected,
                )
            },
            final(state)@ == old(state)@.mark_dead(
                spec_dropped(old(self).status(), final(self).status()),
            ),
    {
        proof {
            crate::ecs::lemma_mark_dead(state@, Set::empty(), Set::empty(), 0);
            lemma_dropped_compose(self.status(), self.status(), self.status());
        }
        if !self.clients[i].connected {
            return ;
        }
        let mut k: usize = 0;
        proof {
            assert(self.channels()[i as int].outgoing() + msgs@.take(0)
                =~= self.channels()[i as int].outgoing());
        }
        while k < msgs.len()
            invariant
                self.wf(),
                state.wf(),
                i < self.status().len(),
                k <= msgs@.len(),
                self.status() == old(self).status(),
                self.status()[i as int].connected,
                forall|j: int|
                    0 <= j < self.status().len() && j != i ==> #[trigger] self.channels()[j]
                        == old(self).channels()[j],
                k == 0 ==> self.channels() == old(self).channels(),
                k > 0 ==> !old(self).channels()[i as int].tx_closed(),
                self.channels()[i as int].tx_closed() == old(self).channels()[i as int].tx_closed(),
                spec_sent_all(
                    old(self).channels()[i as int],
                    self.channels()[i as int],
                    msgs@.take(k as int),
                ),
                self.channels()[i as int].outgoing() == old(self).channels()[i as int].outgoing()
                    + msgs@.take(k as int),
                old(self).same_settings(self),
                state@ == old(state)@,
                spec_dropped(old(self).status(), old(self).status()) == Set::<u64>::empty(),
                old(state)@.mark_dead(Set::empty()) == old(state)@,
            decreases msgs@.len() - k,
        {
            let ghost before = *self;
            let sent = self.clients[i].channel.enqueue(msgs[k]);
            proof {
                assert(self.status() =~= before.status());
                assert(msgs@.take(k as int + 1) == msgs@.take(k as int).push(msgs@[k as int]));
                if sent is Ok {
                    let held = old(self).channels()[i as int].outgoing();
                    assert(self.channels()[i as int].outgoing() =~= held + msgs@.take(
                        k as int + 1,
                    ));
                    lemma_sent_one_more(
                        old(self).channels()[i as int],
                        before.channels()[i as int],
                        self.channels()[i as int],
                        msgs@.take(k as int),
                        msgs@[k as int],
                    );
                } else {
                    assert(self.channels()[i as int] == before.channels()[i as int]);
                }
                assert forall|j: int|
                    0 <= j < self.status().len() && j != i implies #[trigger] self.channels()[j]
                    == old(self).channels()[j] by {
                    assert(self.channels()[j] == before.channels()[j]);
                }
            }
            match sent {
                Err(_) => {
                    let ghost mid = *self;
                    self.disconnect_client(state, i);
                    proof {
                        assert forall|j: int|
                            0 <= j < old(self).status().len() && j
                                != i implies #[trigger] self.status()[j] == old(self).status()[j]
                            && self.channels()[j] == old(self).channels()[j] by {
                            assert(self.channels()[j] == mid.channels()[j]);
                        }
                        lemma_dropped_one(old(self).status(), self.status(), i as int);
                        assert(self.channels()[i as int] == mid.channels()[i as int]);
                        assert(k == 0);
                        assert(old(self).channels()[i as int].outgoing() + msgs@.take(0)
                            =~= old(self).channels()[i as int].outgoing());
                    }
                    return ;
                },
                Ok(()) => {},
            }
            k += 1;
        }
        proof {
            assert(msgs@.take(k as int) == msgs@);
        }
    }

    /// Sends `msgs`, in their order, to every client that is connected. A
    /// client is disconnected as soon as its channel refuses a message, and
    /// is sent nothing more; the others are not affected.
    pub fn send_to_all(&mut self, state: &mut World, msgs: &Vec<ServerMsg>)
        requires
            old(self).wf(),
            old(state).wf(),
        ensures
            final(state).wf(),
            old(self).same_settings(final(self)),
            old(self).sent_to_all(final(self), old(state)@, final(state)@, msgs@),
    {
        proof {
            crate::ecs::lemma_mark_dead(state@, Set::empty(), Set::empty(), 0);
            lemma_dropped_compose(self.status(), self.status(), self.status());
        }
        let count: usize = self.clients.len();
        let mut i: usize = 0;
        while i < count
            invariant
                self.wf(),
                state.wf(),
                old(state).wf(),
                count == old(self).status().len(),
                i <= count,
                old(self).same_settings(self),
                spec_only_disconnects(old(self).status(), self.status()),
                spec_untouched_from(
                    old(self).status(),
                    self.status(),
                    old(self).channels(),
                    self.channels(),
                    i as int,
                ),
                forall|j: int|
                    0 <= j < i && (#[trigger] old(self).status()[j]).connected ==> {
                        &&& spec_handed(
                            old(self).channels()[j],
                            self.channels()[j],
                            msgs@,
                            self.status()[j].connected,
                        )
                    },
                forall|j: int|
                    0 <= j < count && !(#[trigger] old(self).status()[j]).connected
                        ==> self.channels()[j] == old(self).channels()[j],
                msgs@.len() == 0 ==> self.status() == old(self).status() && self.channels()
                    == old(self).channels(),
                state@ == old(state)@.mark_dead(spec_dropped(old(self).status(), self.status())),
            decreases count - i,
        {
            let ghost before = *self;
            proof {
                assert(before.status()[i as int] == old(self).status()[i as int]);
                assert(before.channels()[i as int] == old(self).channels()[i as int]);
            }
            self.send_all_to(state, i, msgs);
            proof {
                lemma_dropped_compose(old(self).status(), before.status(), self.status());
                crate::ecs::lemma_mark_dead(
                    old(state)@,
                    spec_dropped(old(self).status(), before.status()),
                    spec_dropped(before.status(), self.status()),
                    0,
                );
                assert forall|j: int|
                    0 <= j < count && !(#[trigger] old(self).status()[j]).connected
                        implies self.channels()[j] == old(self).channels()[j] by {
                    if j == i {
                        assert(before.status()[j] == old(self).status()[j]);
                    } else {
                        assert(self.status()[j] == before.status()[j]);
                    }
                }
                assert forall|j: int|
                    0 <= j < i + 1 && (#[trigger] old(self).status()[j]).connected implies {
                    &&& spec_handed(
                        old(self).channels()[j],
                        self.channels()[j],
                        msgs@,
                        self.status()[j].connected,
                    )
                } by {
                    if j == i {
                        assert(before.status()[j] == old(self).status()[j]);
                        assert(before.channels()[j] == old(self).channels()[j]);
                    } else {
                        assert(self.status()[j] == before.status()[j]);
                        assert(self.channels()[j] == before.channels()[j]);
                    }
                }
                lemma_untouched_after(
                    old(self).status(),
                    before.status(),
                    self.status(),
                    old(self).channels(),
                    before.channels(),
                    self.channels(),
                    i as int,
                );
            }
            i += 1;
        }
    }

    /// Sends `msg` to every client that is connected, and disconnects those
    /// whose channel refuses it.
    pub fn broadcast(&mut self, state: &mut World, msg: ServerMsg)
        requires
            old(self).wf(),
            old(state).wf(),
        ensures
            final(state).wf(),
            old(self).same_settings(final(self)),
            old(self).sent_to_all(final(self), old(state)@, final(state)@, seq![msg]),
    {
        let mut msgs: Vec<ServerMsg> = Vec::new();
        msgs.push(msg);
        assert(msgs@ == seq![msg]);
        self.send_to_all(state, &msgs);
    }

    /// Takes in a client that has connected over `channel`: makes its
    /// avatar, in the next colour of the spectrum, and sends the client its
    /// welcome. Where the store has no id left for an avatar, the client is
    /// not taken in and `channel` is let go.
    ///
    /// A client whose channel refuses a message of the welcome is taken in
    /// as disconnected, with its avatar marked dead.
    pub fn accept(&mut self, state: &mut World, channel: TNetwork) -> (joined: bool)
        requires
            old(self).wf(),
            old(state).wf(),
        ensures
            final(self).wf(),
            final(state).wf(),
            final(self).colors().position() == (old(self).colors().position() + 1) % 6,
            final(self).next_measurement() == old(self).next_measurement(),
            final(self).registry() == old(self).registry(),
            joined == (old(state)@.ids < u64::MAX),
            !joined ==> final(self).status() == old(self).status() && final(self).channels()
                == old(self).channels() && final(state)@ == old(state)@,
            joined ==> {
                let avatar = old(state)@.ids;
                let count = old(self).status().len() as int;
                let spawned = old(state)@.spawn(spec_avatar(old(self).colors().position(), 0));
                &&& final(self).status().len() == count + 1
                &&& final(self).status().take(count) == old(self).status()
                &&& final(self).channels().take(count) == old(self).channels()
                &&& final(self).status()[count].entity == avatar
                &&& spec_handed(
                    channel,
                    final(self).channels()[count],
                    messages::spec_welcome(spawned, avatar),
                    final(self).status()[count].connected,
                )
                &&& final(state)@ == spawned.mark_dead(
                    if final(self).status()[count].connected {
                        Set::empty()
                    } else {
                        set![avatar]
                    },
                )
            },
    {
        proof {
            self.colors().lemma_position_in_spectrum();
        }
        let color = self.colors.next();
        let spawned = spawn_gorilla(
            state,
            Vector2 { x: START_X, y: START_Y },
            color,
            None,
            false,
        );
        match spawned {
            Err(_) => false,
            Ok(client_entity) => {
                let msgs = welcome(state, client_entity);
                let count: usize = self.clients.len();
                self.clients.push(Client { entity: client_entity, channel, connected: true });
                let ghost mid = *self;
                proof {
                    assert(mid.status().take(count as int) =~= old(self).status());
                    assert(mid.channels().take(count as int) =~= old(self).channels());
                    assert(mid.channels()[count as int] == channel);
                    assert(msgs@.len() > 0);
                }
                self.send_all_to(state, count, &msgs);
                proof {
                    let a = mid.status();
                    let b = self.status();
                    assert(self.status().take(count as int) =~= old(self).status()) by {
                        assert forall|j: int| 0 <= j < count implies b[j]
                            == old(self).status()[j] by {
                            assert(b[j] == a[j]);
                            assert(a.take(count as int)[j] == a[j]);
                        }
                    }
                    assert(self.channels().take(count as int) =~= old(self).channels()) by {
                        assert forall|j: int| 0 <= j < count implies self.channels()[j]
                            == old(self).channels()[j] by {
                            assert(b[j] == a[j]);
                            assert(mid.channels().take(count as int)[j] == mid.channels()[j]);
                        }
                    }
                    lemma_dropped_one(a, b, count as int);
                }
                true
            },
        }
    }

    /// Takes in the clients that have connected since the last call, in the
    /// order in which the registry hands them over, for as long as the store
    /// has an id left for an avatar.
    ///
    /// The clients that the server had stay as they are, and so do the
    /// entities that the store held. Each client taken in has a new avatar
    /// and has been sent its welcome: that its avatar has the focus, and
    /// then the state of every entity that clients are told, its own avatar
    /// among them.
    pub fn process_new_clients(&mut self, state: &mut World)
        requires
            old(self).wf(),
            old(state).wf(),
        ensures
            final(state).wf(),
            old(self).took_in(final(self), old(state)@, final(state)@),
    {
        let mut incoming: Vec<TNetwork> = Vec::new();
        std::mem::swap(&mut incoming, &mut self.new_client_buffer);
        self.server.get_new_clients(&mut incoming);
        let ghost count = old(self).status().len() as int;
        let ghost waiting = old(self).registry().waiting();
        let ghost position = old(self).colors().position();
        let ghost mut taken: int = 0;
        proof {
            self.colors().lemma_position_in_spectrum();
            assert(self.status().take(count) =~= old(self).status());
            assert(self.channels().take(count) =~= old(self).channels());
            assert(self.status().skip(count) =~= Seq::<ClientStatus>::empty());
            assert(self.channels().skip(count) =~= Seq::<TNetwork>::empty());
            lemma_welcomed_none(waiting, old(state)@, position);
            assert(incoming@.skip(0) == incoming@);
        }
        while incoming.len() > 0
            invariant
                self.wf(),
                state.wf(),
                old(state).wf(),
                count == old(self).status().len(),
                waiting == old(self).registry().waiting(),
                position == old(self).colors().position(),
                0 <= position < 6,
                self.next_measurement() == old(self).next_measurement(),
                self.registry().waiting() == Seq::<TNetwork>::empty(),
                0 <= taken <= waiting.len(),
                incoming@ == waiting.skip(taken),
                self.colors().position() == (position + taken) % 6,
                self.status().len() - count == if taken <= u64::MAX - old(state)@.ids {
                    taken
                } else {
                    u64::MAX - old(state)@.ids
                },
                self.status().take(count) == old(self).status(),
                self.channels().take(count) == old(self).channels(),
                state@.ids == old(state)@.ids + (self.status().len() - count),
                state@ == spec_joined(old(state)@, position, self.status().skip(count)),
                spec_welcomed(
                    waiting,
                    self.status().skip(count),
                    self.channels().skip(count),
                    old(state)@,
                    position,
                ),
            decreases incoming@.len(),
        {
            let new_client = incoming.remove(0);
            let ghost before = *self;
            let joined = self.accept(state, new_client);
            proof {
                assert(new_client == waiting[taken]);
                assert(incoming@ =~= waiting.skip(taken + 1));
                let n = before.status().len() as int;
                let was = before.status().skip(count);
                let now = self.status().skip(count);
                if joined {
                    assert(n - count == taken);
                    assert(self.status().take(count) =~= old(self).status()) by {
                        assert forall|j: int| 0 <= j < count implies self.status()[j]
                            == old(self).status()[j] by {
                            assert(self.status().take(n)[j] == self.status()[j]);
                            assert(before.status().take(count)[j] == before.status()[j]);
                        }
                    }
                    assert(self.channels().take(count) =~= old(self).channels()) by {
                        assert forall|j: int| 0 <= j < count implies self.channels()[j]
                            == old(self).channels()[j] by {
                            assert(self.channels().take(n)[j] == self.channels()[j]);
                            assert(before.channels().take(count)[j] == before.channels()[j]);
                        }
                    }
                    assert(now.drop_last() =~= was) by {
                        assert forall|j: int| 0 <= j < was.len() implies now[j] == was[j] by {
                            assert(self.status().take(n)[count + j] == self.status()[count + j]);
                        }
                    }
                    assert(now.last() == self.status()[n]);
                    assert(spec_avatar(position, taken) == spec_avatar(
                        before.colors().position(),
                        0,
                    ));
                    let ends_were = before.channels().skip(count);
                    let ends = self.channels().skip(count);
                    assert(ends =~= ends_were.push(self.channels()[n])) by {
                        assert forall|j: int| 0 <= j < ends_were.len() implies ends[j]
                            == ends_were[j] by {
                            assert(self.channels().take(n)[count + j] == self.channels()[count
                                + j]);
                        }
                    }
                    assert(now =~= was.push(self.status()[n]));
                    lemma_welcomed_one_more(
                        waiting,
                        was,
                        ends_were,
                        old(state)@,
                        position,
                        self.status()[n],
                        self.channels()[n],
                    );
                }
                taken = taken + 1;
            }
        }
        let ghost settled = *self;
        std::mem::swap(&mut incoming, &mut self.new_client_buffer);
        proof {
            assert(self.status() =~= settled.status());
            assert(self.channels() =~= settled.channels());
        }
    }

    /// Takes what the `i`-th client has sent, if it is connected, and acts
    /// on it, where the server's clock reads `now`. The client is
    /// disconnected if its channel does not hand out its messages.
    fn receive_from(&mut self, state: &mut World, i: usize, now: u64)
        requires
            old(self).wf(),
            old(state).wf(),
            i < old(self).status().len(),
        ensures
            final(self).wf(),
            final(state).wf(),
            old(self).same_settings(final(self)),
            spec_only_disconnects(old(self).status(), final(self).status()),
            spec_others_kept(
                old(self).status(),
                final(self).status(),
                old(self).channels(),
                final(self).channels(),
                i as int,
            ),
            old(self).status()[i as int].connected ==> spec_heard(
                old(self).channels()[i as int],
                final(self).channels()[i as int],
                final(self).status()[i as int].connected,
            ),
            !old(self).status()[i as int].connected ==> final(self).channels()[i as int]
                == old(self).channels()[i as int],
            final(state)@ == if !old(self).status()[i as int].connected {
                old(state)@
            } else if final(self).status()[i as int].connected {
                messages::spec_apply_client_msgs(
                    old(state)@,
                    old(self).status()[i as int].entity,
                    old(self).channels()[i as int].ready(),
                    now,
                )
            } else {
                old(state)@.mark_dead(set![old(self).status()[i as int].entity])
            },
    {
        if !self.clients[i].connected {
            return ;
        }
        let ghost before = *self;
        let received = self.clients[i].channel.dequeue(&mut self.msg_buffer);
        proof {
            assert(self.status() =~= before.status());
            assert forall|j: int|
                0 <= j < old(self).status().len() && j != i implies #[trigger] self.channels()[j]
                == old(self).channels()[j] by {}
        }
        match received {
            Err(_) => {
                let ghost mid = *self;
                self.disconnect_client(state, i);
                proof {
                    assert forall|j: int|
                        0 <= j < old(self).status().len() && j
                            != i implies #[trigger] self.status()[j] == old(self).status()[j]
                        && self.channels()[j] == old(self).channels()[j] by {
                        assert(self.channels()[j] == mid.channels()[j]);
                    }
                }
            },
            Ok(()) => {
                apply_client_msgs(state, self.clients[i].entity, &self.msg_buffer, now);
            },
        }
    }

    /// Takes what each connected client has sent and acts on it, where the
    /// server's clock reads `now`. A client whose channel does not hand out
    /// its messages is disconnected and its avatar marked dead; the others
    /// are not affected.
    ///
    /// Nothing but input, latency and death marks comes to the entities.
    pub fn process_client_msgs(&mut self, now: u64, state: &mut World)
        requires
            old(self).wf(),
            old(state).wf(),
        ensures
            final(state).wf(),
            old(self).served(final(self), old(state)@, final(state)@, now),
            messages::spec_same_world(old(state)@, final(state)@),
    {
        let count: usize = self.clients.len();
        let mut i: usize = 0;
        proof {
            messages::lemma_same_world(state@, 0, Seq::empty(), 0, Set::empty());
        }
        while i < count
            invariant
                self.wf(),
                state.wf(),
                count == old(self).status().len(),
                i <= count,
                old(self).same_settings(self),
                spec_only_disconnects(old(self).status(), self.status()),
                spec_untouched_from(
                    old(self).status(),
                    self.status(),
                    old(self).channels(),
                    self.channels(),
                    i as int,
                ),
                forall|j: int|
                    0 <= j < i && (#[trigger] old(self).status()[j]).connected ==> spec_heard(
                        old(self).channels()[j],
                        self.channels()[j],
                        self.status()[j].connected,
                    ),
                forall|j: int|
                    0 <= j < count && !(#[trigger] old(self).status()[j]).connected
                        ==> self.channels()[j] == old(self).channels()[j],
                state@ == spec_receive_all(
                    old(state)@,
                    old(self).status(),
                    self.status(),
                    old(self).ready(),
                    now,
                    i as nat,
                ),
                messages::spec_same_world(old(state)@, state@),
            decreases count - i,
        {
            let ghost before = *self;
            let ghost before_store = state@;
            proof {
                assert(before.status()[i as int] == old(self).status()[i as int]);
                assert(before.channels()[i as int] == old(self).channels()[i as int]);
            }
            self.receive_from(state, i, now);
            proof {
                let a = old(self).status();
                let b = before.status();
                let c = self.status();
                lemma_untouched_after(
                    a,
                    b,
                    c,
                    old(self).channels(),
                    before.channels(),
                    self.channels(),
                    i as int,
                );
                lemma_dropped_compose(a, b, c);
                assert(old(self).ready()[i as int] == old(self).channels()[i as int].ready());
                lemma_receive_all_of_first(
                    old(state)@,
                    a,
                    b,
                    c,
                    old(self).ready(),
                    now,
                    i as nat,
                );
                messages::lemma_same_world(
                    before_store,
                    a[i as int].entity,
                    old(self).ready()[i as int],
                    now,
                    set![a[i as int].entity],
                );
                assert forall|j: int|
                    0 <= j < i + 1 && (#[trigger] old(self).status()[j]).connected
                        implies spec_heard(
                    old(self).channels()[j],
                    self.channels()[j],
                    self.status()[j].connected,
                ) by {
                    if j != i {
                        assert(c[j] == b[j]);
                        assert(self.channels()[j] == before.channels()[j]);
                    }
                }
                assert forall|j: int|
                    0 <= j < count && !(#[trigger] old(self).status()[j]).connected
                        implies self.channels()[j] == old(self).channels()[j] by {
                    if j != i {
                        assert(c[j] == b[j]);
                        assert(self.channels()[j] == before.channels()[j]);
                    } else {
                        assert(b[j] == a[j]);
                    }
                }
            }
            i += 1;
        }
    }

    /// Takes the keyframe of every entity that is due and tells every
    /// connected client the state of those entities.
    pub fn broadcast_state(&mut self, state: &mut World)
        requires
            old(self).wf(),
            old(state).wf(),
        ensures
            final(state).wf(),
            old(self).same_settings(final(self)),
            old(self).sent_to_all(
                final(self),
                messages::spec_after_keyframes(old(state)@),
                final(state)@,
                messages::spec_keyframe_messages(old(state)@.entities),
            ),
    {
        let msgs = take_keyframes(state);
        self.send_to_all(state, &msgs);
    }

    /// Whether the clients' latency is to be probed at `now`.
    pub fn measurement_due(&self, now: u64) -> (due: bool)
        ensures
            due == spec_measurement_due(self.next_measurement(), now),
    {
        match self.next_latency_measurement_time {
            Some(at) => now >= at,
            None => false,
        }
    }

    /// Sets the time of the next probe of the clients' latency one period
    /// on from `now`.
    fn schedule_measurement(&mut self, now: u64)
        requires
            now + LATENCY_MEASUREMENT_PERIOD <= u64::MAX,
        ensures
            final(self).next_measurement() == Some((now + LATENCY_MEASUREMENT_PERIOD) as u64),
            final(self).status() == old(self).status(),
            final(self).channels() == old(self).channels(),
            final(self).colors() == old(self).colors(),
            final(self).registry() == old(self).registry(),
    {
        self.next_latency_measurement_time = Some(now + LATENCY_MEASUREMENT_PERIOD);
        proof {
            assert(self.status() =~= old(self).status());
            assert(self.channels() =~= old(self).channels());
        }
    }

    /// Probes the latency of every connected client where a probe is due at
    /// `now`: sends each a `Ping` stamped `now`, and sets the next probe one
    /// period on. Where none is due, nothing changes.
    pub fn measure_client_latencies(&mut self, now: u64, state: &mut World)
        requires
            old(self).wf(),
            old(state).wf(),
            spec_measurement_due(old(self).next_measurement(), now) ==> now
                + LATENCY_MEASUREMENT_PERIOD <= u64::MAX,
        ensures
            final(self).wf(),
            final(state).wf(),
            old(self).probed(final(self), old(state)@, final(state)@, now),
    {
        proof {
            crate::ecs::lemma_mark_dead(state@, Set::empty(), Set::empty(), 0);
            lemma_dropped_compose(self.status(), self.status(), self.status());
        }
        if self.measurement_due(now) {
            self.schedule_measurement(now);
            let ghost scheduled = *self;
            self.broadcast(state, ServerMsg::Ping(now));
            proof {
                assert(scheduled.sent_to_all(
                    self,
                    old(state)@,
                    state@,
                    seq![ServerMsg::Ping(now)],
                ));
                assert(old(self).sent_to_all(
                    self,
                    old(state)@,
                    state@,
                    seq![ServerMsg::Ping(now)],
                ));
            }
        }
    }

    /// Makes the anchors of the playing field.
    pub fn init(&mut self, state: &mut World) -> (r: Result<(), GgError>)
        requires
            old(state).wf(),
        ensures
            final(state).wf(),
            *final(self) == *old(self),
            match r {
                Ok(()) => {
                    &&& old(state)@.ids + 5 <= u64::MAX
                    &&& final(state)@ == gorilla::spec_with_anchors(old(state)@, 5)
                },
                Err(e) => {
                    &&& old(state)@.ids + 5 > u64::MAX
                    &&& final(state)@ == gorilla::spec_with_anchors(
                        old(state)@,
                        (u64::MAX - old(state)@.ids) as nat,
                    )
                    &&& e.reason() == "out of entity ids"@
                },
            },
    {
        match spawn_anchors(state) {
            Ok(_) => Ok(()),
            Err(e) => Err(e),
        }
    }

    /// One tick of the server, where its clock reads `now`: takes in the
    /// new clients, acts on what the clients sent, tells them the keyframes
    /// that are due, and probes their latency if a probe is due.
    ///
    /// No client's failure ends the tick: a client whose channel fails is
    /// disconnected and its avatar marked dead, and the tick goes on. The
    /// clients that the server had are the first of those it has after the
    /// tick, and none of them is connected again.
    pub fn tick(&mut self, now: u64, state: &mut World)
        requires
            old(self).wf(),
            old(state).wf(),
            spec_measurement_due(old(self).next_measurement(), now) ==> now
                + LATENCY_MEASUREMENT_PERIOD <= u64::MAX,
        ensures
            final(self).wf(),
            final(state).wf(),
            old(self).ticked(final(self), old(state)@, final(state)@, now),
            spec_only_disconnects(
                old(self).status(),
                final(self).status().take(old(self).status().len() as int),
            ),
            final(state)@.ids - old(state)@.ids
                == final(self).status().len() - old(self).status().len(),
    {
        let ghost count = self.status().len() as int;
        self.process_new_clients(state);
        let ghost a = *self;
        let ghost sa = state@;
        proof {
            lemma_joined_ids(old(state)@, old(self).colors().position(), a.status().skip(count));
        }
        self.process_client_msgs(now, state);
        let ghost b = *self;
        let ghost sb = state@;
        self.broadcast_state(state);
        let ghost c = *self;
        let ghost sc = state@;
        self.measure_client_latencies(now, state);
        proof {
            let s1 = a.status();
            let s2 = b.status();
            let s3 = c.status();
            let s4 = self.status();
            lemma_dropped_compose(s1, s2, s3);
            lemma_dropped_compose(s1, s3, s4);
            let s0 = old(self).status();
            assert forall|i: int| 0 <= i < count implies (#[trigger] s4.take(count)[i]).entity
                == s0[i].entity && (s4.take(count)[i].connected ==> s0[i].connected) by {
                assert(s1.take(count)[i] == s1[i]);
                assert(s4[i].entity == s1[i].entity);
            }
            assert(old(self).took_in(&a, old(state)@, sa));
            assert(a.served(&b, sa, sb, now));
            assert(c.probed(self, sc, state@, now));
        }
    }

    /// One tick of the server where its clock reads `now`, or nothing at
    /// all: the update fails, before anything is done, exactly when a probe
    /// of the clients' latency is due and the time of the next probe would
    /// be beyond what the clock can tell.
    pub fn update_at(&mut self, now: u64, state: &mut World) -> (r: Result<(), GgError>)
        requires
            old(self).wf(),
            old(state).wf(),
        ensures
            final(self).wf(),
            final(state).wf(),
            old(self).updated(final(self), old(state)@, final(state)@, now, r is Ok),
            r matches Err(e) ==> e.reason() == "clock out of range"@,
            spec_only_disconnects(
                old(self).status(),
                final(self).status().take(old(self).status().len() as int),
            ),
            final(state)@.ids - old(state)@.ids
                == final(self).status().len() - old(self).status().len(),
    {
        if self.measurement_due(now) && now > u64::MAX - LATENCY_MEASUREMENT_PERIOD {
            proof {
                assert(self.status().take(self.status().len() as int) =~= self.status());
            }
            return Err(GgError::new("clock out of range"));
        }
        self.tick(now, state);
        Ok(())
    }

    /// One update of the server at the time that `context` tells.
    ///
    /// Nothing is known of what the clock reads: the outcome is that of
    /// `update_at` for one of its readings.
    pub fn update<TContext: TimerService>(&mut self, state: &mut World, context: &TContext) -> (r:
        Result<(), GgError>)
        requires
            old(self).wf(),
            old(state).wf(),
        ensures
            final(self).wf(),
            final(state).wf(),
            spec_only_disconnects(
                old(self).status(),
                final(self).status().take(old(self).status().len() as int),
            ),
            final(state)@.ids - old(state)@.ids
                == final(self).status().len() - old(self).status().len(),
            old(self).next_measurement() is None ==> r is Ok,
            r matches Err(e) ==> e.reason() == "clock out of range"@,
            exists|now: u64| #[trigger]
                old(self).updated(final(self), old(state)@, final(state)@, now, r is Ok),
    {
        let now: u64 = context.time_since_start();
        self.update_at(now, state)
    }

    /// Tells every connected client that the entity `entity` goes, if it is
    /// one that clients are told about. This is to be done before the entity
    /// is destroyed.
    pub fn teardown_entity(&mut self, entity: u64, state: &mut World)
        requires
            old(self).wf(),
            old(state).wf(),
        ensures
            final(state).wf(),
            old(self).same_settings(final(self)),
            old(self).sent_to_all(
                final(self),
                old(state)@,
                final(state)@,
                spec_farewell(old(state)@, entity),
            ),
    {
        proof {
            crate::ecs::lemma_mark_dead(state@, Set::empty(), Set::empty(), 0);
            lemma_dropped_compose(self.status(), self.status(), self.status());
        }
        match state.has(entity, ComponentKind::Network) {
            Ok(told) => {
                if told {
                    self.broadcast(state, ServerMsg::Kill(entity));
                }
            },
            Err(_) => {},
        }
    }

    /// Forgets the clients whose avatar is `entity`.
    pub fn forget_client(&mut self, entity: u64)
        requires
            old(self).wf(),
        ensures
            final(self).wf(),
            final(self).status() == spec_forget(old(self).status(), entity),
            final(self).channels() == spec_forget_channels(
                old(self).status(),
                old(self).channels(),
                entity,
            ),
            old(self).same_settings(final(self)),
    {
        let mut kept: Vec<Client<TNetwork>> = Vec::new();
        let ghost all = self.status();
        let ghost ends = self.channels();
        let ghost mut done: int = 0;
        while self.clients.len() > 0
            invariant
                0 <= done <= all.len(),
                self.status() == all.skip(done),
                Seq::new(
                    kept@.len(),
                    |i: int|
                        ClientStatus { entity: kept@[i].entity, connected: kept@[i].connected },
                ) == spec_forget(all.take(done), entity),
                ends.len() == all.len(),
                self.channels() == ends.skip(done),
                Seq::new(kept@.len(), |i: int| kept@[i].channel) == spec_forget_channels(
                    all.take(done),
                    ends.take(done),
                    entity,
                ),
                old(self).same_settings(self),
                self.colors().wf(),
            decreases self.clients@.len(),
        {
            let ghost before = self.status();
            let ghost before_ends = self.channels();
            let client = self.clients.remove(0);
            proof {
                assert(self.status() =~= before.skip(1));
                assert(self.channels() =~= before_ends.skip(1));
                assert(before_ends.skip(1) == ends.skip(done + 1));
                assert(ends.take(done + 1).drop_last() == ends.take(done));
                assert(ends.take(done + 1).last() == before_ends[0]);
                assert(before_ends[0] == client.channel);
                assert(before.skip(1) == all.skip(done + 1));
                assert(all.take(done + 1).drop_last() == all.take(done));
                assert(all.take(done + 1).last() == before[0]);
                assert(before[0].entity == client.entity);
            }
            if client.entity != entity {
                kept.push(client);
            }
            proof {
                done = done + 1;
            }
        }
        self.clients = kept;
        proof {
            assert(all.take(done) == all);
            assert(ends.take(done) == ends);
            assert(self.channels().len() == self.status().len());
        }
    }

    /// Tears down every entity that is marked dead: tells the clients that
    /// it goes, forgets the client whose avatar it is, and only then
    /// destroys it.
    ///
    /// Of the entities that the store held, those marked dead are gone and
    /// the others are still there, and no client is left whose avatar is
    /// gone. A client that fails while being told may have its avatar marked
    /// dead, for the next teardown.
    pub fn teardown_dead_entities(&mut self, state: &mut World)
        requires
            old(self).wf(),
            old(state).wf(),
        ensures
            final(self).wf(),
            final(state).wf(),
            old(self).tore_down_all(
                final(self),
                old(state)@,
                final(state)@,
                old(state)@.collect_with(seq![ComponentKind::Dead]),
            ),
            final(state)@.ids == old(state)@.ids,
            old(self).same_settings(final(self)),
            forall|x: u64| #[trigger]
                final(state)@.contains(x) <==> old(state)@.contains(x) && old(state)@.get(
                    x,
                ).dead is None,
            forall|j: int|
                0 <= j < final(self).status().len() ==> !(old(state)@.contains(
                    (#[trigger] final(self).status()[j]).entity,
                ) && old(state)@.get(final(self).status()[j].entity).dead is Some),
    {
        let mut filter: Vec<ComponentKind> = Vec::new();
        filter.push(ComponentKind::Dead);
        let mut dead_entities: Vec<u64> = Vec::new();
        state.collect_with(&filter, &mut dead_entities);
        proof {
            assert(filter@ =~= seq![ComponentKind::Dead]);
            crate::ecs::lemma_collect_with(state@, filter@);
            assert forall|x: u64| #[trigger]
                dead_entities@.contains(x) <==> old(state)@.contains(x) && old(state)@.get(
                    x,
                ).dead is Some by {
                if old(state)@.contains(x) {
                    let e = old(state)@.get(x);
                    if e.dead is Some {
                        assert forall|k: int| 0 <= k < filter@.len() implies e.has(
                            #[trigger] filter@[k],
                        ) by {}
                    } else {
                        assert(!e.has(filter@[0]));
                    }
                }
            }
        }
        let count: usize = dead_entities.len();
        let mut i: usize = 0;
        while i < count
            invariant
                self.wf(),
                state.wf(),
                old(state).wf(),
                count == dead_entities@.len(),
                i <= count,
                state@.ids == old(state)@.ids,
                old(self).same_settings(self),
                old(self).tore_down_all(
                    self,
                    old(state)@,
                    state@,
                    dead_entities@.take(i as int),
                ),
                forall|x: u64| #[trigger]
                    dead_entities@.contains(x) <==> old(state)@.contains(x) && old(state)@.get(
                        x,
                    ).dead is Some,
                forall|x: u64| #[trigger]
                    state@.contains(x) <==> old(state)@.contains(x) && !dead_entities@.take(
                        i as int,
                    ).contains(x),
                forall|j: int|
                    0 <= j < self.status().len() ==> !dead_entities@.take(i as int).contains(
                        (#[trigger] self.status()[j]).entity,
                    ),
            decreases count - i,
        {
            let entity: u64 = dead_entities[i];
            let ghost before = *self;
            let ghost before_store = state@;
            let ghost before_status = self.status();
            self.teardown_entity(entity, state);
            let ghost told = *self;
            let ghost told_store = state@;
            let ghost told_status = self.status();
            self.forget_client(entity);
            let _ = state.destroy_entity(entity);
            proof {
                crate::ecs::lemma_mark_dead(
                    before_store,
                    spec_dropped(before_status, told_status),
                    Set::empty(),
                    0,
                );
                crate::ecs::lemma_destroy(told_store, entity);
                let prefix = dead_entities@.take(i as int);
                let longer = dead_entities@.take(i as int + 1);
                assert(longer == prefix.push(entity));
                assert(longer.drop_last() == prefix);
                assert(before.sent_to_all(
                    &told,
                    before_store,
                    told_store,
                    spec_farewell(before_store, entity),
                ));
                assert(before.tore_down(self, before_store, state@, entity));
                assert(longer.len() > 0 && longer.last() == entity);
                assert(old(self).tore_down_all(
                    &before,
                    old(state)@,
                    before_store,
                    longer.drop_last(),
                ));
                assert(before.tore_down(self, before_store, state@, longer.last()));
                assert(old(self).tore_down_all(self, old(state)@, state@, longer));
                assert forall|x: u64| #[trigger]
                    state@.contains(x) <==> old(state)@.contains(x) && !longer.contains(x) by {
                    if longer.contains(x) {
                        let j = choose|j: int| 0 <= j < longer.len() && longer[j] == x;
                        if j < i {
                            assert(prefix[j] == x);
                            assert(prefix.contains(x));
                        }
                    }
                    if prefix.contains(x) {
                        let j = choose|j: int| 0 <= j < prefix.len() && prefix[j] == x;
                        assert(longer[j] == x);
                    }
                    if x == entity {
                        assert(longer[i as int] == x);
                    }
                }
                lemma_forget(told_status, entity);
                assert forall|j: int| 0 <= j < self.status().len() implies !longer.contains(
                    (#[trigger] self.status()[j]).entity,
                ) by {
                    let x = self.status()[j].entity;
                    if longer.contains(x) {
                        let w = choose|w: int| 0 <= w < longer.len() && longer[w] == x;
                        if w < i {
                            assert(prefix[w] == x);
                            assert(prefix.contains(x));
                            let v = choose|v: int|
                                0 <= v < told_status.len() && (#[trigger] told_status[v])
                                    == self.status()[j];
                            assert(before_status[v].entity == told_status[v].entity);
                        }
                    }
                }
            }
            i += 1;
        }
        proof {
            assert(dead_entities@.take(i as int) == dead_entities@);
            assert(dead_entities@ == old(state)@.collect_with(seq![ComponentKind::Dead]));
            assert forall|j: int| 0 <= j < self.status().len() implies !(old(state)@.contains(
                (#[trigger] self.status()[j]).entity,
            ) && old(state)@.get(self.status()[j].entity).dead is Some) by {
                assert(!dead_entities@.contains(self.status()[j].entity));
            }
        }
    }
}

} // verus!
