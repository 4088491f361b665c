use gg::colors::{rgb, spectrum_color};
use gg::component::body::{Body, RadialBody, Vector2, KEYFRAME_PERIOD};
use gg::component::{Dead, Latency, Network};
use gg::context::TimerService;
use gg::ecs::{Component, World};
use gg::input::{new_key_mapping, Button, InputEvent};
use gg::network::dummy::DummyChannel;
use gg::network::framed::{RealNetwork, RealServer};
use gg::network::sim::{SimNetworkEnd, SimServer};
use gg::network::{ClientMsg, RxChannel, ServerMsg, TxChannel};
use gg::system::client::ClientSystem;
use gg::system::gorilla::{BodyCommand, GorillaSystem};
use gg::system::messages::{apply_client_msgs, snapshot, take_keyframes, welcome};
use gg::system::server::{
    ServerSystem,
    LATENCY_MEASUREMENT_PERIOD,
};

type Link = SimNetworkEnd<ServerMsg, ClientMsg>;

fn sim_server(compensate: bool) -> ServerSystem<SimServer, Link> {
    ServerSystem::new(SimServer::new(0, 0), compensate).unwrap()
}

fn client_receives(server: &mut ServerSystem<SimServer, Link>, i: usize) -> Vec<ServerMsg> {
    let mut msgs: Vec<ServerMsg> = vec![];
    server.channel_mut(i).dequeue(&mut msgs).unwrap();
    msgs
}

fn join(server: &mut ServerSystem<SimServer, Link>, state: &mut World) -> usize {
    let link: Link = SimNetworkEnd::new(0, 0);
    assert!(server.accept(state, link));
    server.client_count() - 1
}

#[test]
fn a_new_client_gets_the_focus_and_then_the_snapshot() {
    let mut server = sim_server(false);
    let mut state = World::new();
    server.init(&mut state).unwrap();
    assert_eq!(5, state.len());

    let i = join(&mut server, &mut state);
    let (avatar, connected) = server.client(i);
    assert_eq!(5, avatar);
    assert!(connected);

    let msgs = client_receives(&mut server, i);
    assert_eq!(ServerMsg::SetFocus(5), msgs[0]);
    // five anchors and the avatar, each with a body and a sprite
    assert_eq!(1 + 6 * 2, msgs.len());
    for id in 0..6u64 {
        let entity = state.get(id).unwrap();
        assert_eq!(ServerMsg::SetBody(id, entity.body.unwrap()), msgs[1 + 2 * id as usize]);
        assert_eq!(ServerMsg::SetSprite(id, entity.sprite.unwrap()), msgs[2 + 2 * id as usize]);
    }
    assert_eq!(welcome(&state, avatar), msgs);
}

#[test]
fn avatars_take_the_colours_of_the_spectrum_in_turn() {
    let mut server = sim_server(false);
    let mut state = World::new();
    for n in 0..7usize {
        let i = join(&mut server, &mut state);
        let (avatar, _) = server.client(i);
        let sprite = state.get(avatar).unwrap().sprite.unwrap();
        assert_eq!(spectrum_color(n % 6), sprite.color);
    }
    assert_eq!(rgb(true, false, false), state.get(0).unwrap().sprite.unwrap().color);
    assert_eq!(rgb(true, false, false), state.get(6).unwrap().sprite.unwrap().color);
}

#[test]
fn the_registry_hands_its_connections_to_the_server() {
    let mut registry = SimServer::new(0, 0);
    assert_eq!(0, registry.connect());
    assert_eq!(1, registry.connect());
    let mut server: ServerSystem<SimServer, Link> = ServerSystem::new(registry, false).unwrap();
    let mut state = World::new();
    server.process_new_clients(&mut state);
    assert_eq!(2, server.client_count());
    assert_eq!((0, true), server.client(0));
    assert_eq!((1, true), server.client(1));
    // nothing new: nothing changes
    server.process_new_clients(&mut state);
    assert_eq!(2, server.client_count());
    assert_eq!(2, state.len());
}

#[test]
fn input_reaches_the_avatar_and_a_pong_sets_the_latency() {
    let mut server = sim_server(true);
    let mut state = World::new();
    let i = join(&mut server, &mut state);
    let (avatar, _) = server.client(i);
    let down = InputEvent { button: Button::One, is_down: true };
    let up = InputEvent { button: Button::One, is_down: false };
    server.channel_mut(i).peer_enqueue(ClientMsg::Input(down));
    server.channel_mut(i).peer_enqueue(ClientMsg::Pong(40));
    server.channel_mut(i).peer_enqueue(ClientMsg::Test(1));
    server.channel_mut(i).peer_enqueue(ClientMsg::Input(up));

    server.process_client_msgs(100, &mut state);

    let entity = state.get(avatar).unwrap();
    assert_eq!(vec![down, up], entity.gorilla.as_ref().unwrap().input_events);
    assert_eq!(Some(Latency(60)), entity.latency);
}

#[test]
fn a_pong_from_the_future_is_no_measurement() {
    let mut state = World::new();
    let avatar = state.create_entity().unwrap();
    state.set(avatar, Component::Latency(Latency(7))).unwrap();
    apply_client_msgs(&mut state, avatar, &vec![ClientMsg::Pong(101)], 100);
    assert_eq!(Some(Latency(7)), state.get(avatar).unwrap().latency);
    apply_client_msgs(&mut state, avatar, &vec![ClientMsg::Pong(100)], 100);
    assert_eq!(Some(Latency(0)), state.get(avatar).unwrap().latency);
    apply_client_msgs(&mut state, avatar, &vec![ClientMsg::Pong(0)], u64::MAX);
    assert_eq!(Some(Latency(u64::MAX)), state.get(avatar).unwrap().latency);
}

#[test]
fn keyframes_are_broadcast_when_due_and_not_before() {
    let mut server = sim_server(false);
    let mut state = World::new();
    let a = join(&mut server, &mut state);
    let b = join(&mut server, &mut state);
    client_receives(&mut server, a);
    client_receives(&mut server, b);

    // both avatars are new, so both are due
    server.broadcast_state(&mut state);
    let to_a = client_receives(&mut server, a);
    let to_b = client_receives(&mut server, b);
    assert_eq!(to_a, to_b);
    assert_eq!(4, to_a.len());
    match to_a[0] {
        ServerMsg::SetBody(0, Body::Planar(body)) => {
            assert_eq!(KEYFRAME_PERIOD, body.keyframe_countdown)
        }
        _ => panic!("the first avatar's body comes first"),
    }

    // nothing is due now
    server.broadcast_state(&mut state);
    assert_eq!(0, client_receives(&mut server, a).len());

    // nor just before the period is over
    let mut physics = gg::system::physics::PhysicsSystem {};
    physics.update(&mut state, KEYFRAME_PERIOD - 1);
    server.broadcast_state(&mut state);
    assert_eq!(0, client_receives(&mut server, a).len());

    // but when it is
    physics.update(&mut state, 1);
    server.broadcast_state(&mut state);
    assert_eq!(4, client_receives(&mut server, a).len());
    assert_eq!(4, client_receives(&mut server, b).len());
}

#[test]
fn take_keyframes_skips_what_clients_are_not_told() {
    let mut state = World::new();
    let hidden = state.create_entity().unwrap();
    let body = Body::new_static(Vector2 { x: 1, y: 1 });
    state.set(hidden, Component::Body(body)).unwrap();
    assert_eq!(0, take_keyframes(&mut state).len());
    assert_eq!(Some(body), state.get(hidden).unwrap().body);
    assert_eq!(0, snapshot(&state).len());

    state.set(hidden, Component::Network(Network)).unwrap();
    assert_eq!(1, snapshot(&state).len());
    let msgs = take_keyframes(&mut state);
    assert_eq!(1, msgs.len());
    assert_eq!(0, take_keyframes(&mut state).len());
    // an entity that is told but has no body is never due
    let bare = state.create_entity().unwrap();
    state.set(bare, Component::Network(Network)).unwrap();
    assert_eq!(0, take_keyframes(&mut state).len());
}

#[test]
fn latency_is_probed_every_five_seconds() {
    assert_eq!(5_000_000_000, LATENCY_MEASUREMENT_PERIOD);
    let mut server = sim_server(true);
    let mut state = World::new();
    let i = join(&mut server, &mut state);
    client_receives(&mut server, i);

    assert!(server.measurement_due(0));
    server.measure_client_latencies(3, &mut state);
    assert_eq!(vec![ServerMsg::Ping(3)], client_receives(&mut server, i));

    assert!(!server.measurement_due(2 + LATENCY_MEASUREMENT_PERIOD));
    server.measure_client_latencies(2 + LATENCY_MEASUREMENT_PERIOD, &mut state);
    assert_eq!(0, client_receives(&mut server, i).len());

    assert!(server.measurement_due(3 + LATENCY_MEASUREMENT_PERIOD));
    server.measure_client_latencies(3 + LATENCY_MEASUREMENT_PERIOD, &mut state);
    assert_eq!(
        vec![ServerMsg::Ping(3 + LATENCY_MEASUREMENT_PERIOD)],
        client_receives(&mut server, i)
    );
}

#[test]
fn without_compensation_latency_is_never_probed() {
    let mut server = sim_server(false);
    let mut state = World::new();
    let i = join(&mut server, &mut state);
    client_receives(&mut server, i);
    assert!(!server.measurement_due(u64::MAX));
    server.measure_client_latencies(u64::MAX, &mut state);
    assert_eq!(0, client_receives(&mut server, i).len());
}

struct Clock(u64);

impl TimerService for Clock {
    fn average_delta(&self) -> u64 {
        16_000_000
    }

    fn time_since_start(&self) -> u64 {
        self.0
    }
}

#[test]
fn update_reads_the_clock_and_refuses_a_time_beyond_range() {
    let mut server = sim_server(true);
    let mut state = World::new();
    let i = join(&mut server, &mut state);
    client_receives(&mut server, i);

    let failed = server.update(&mut state, &Clock(u64::MAX)).unwrap_err();
    assert_eq!("clock out of range", failed.to_string());
    assert_eq!(0, client_receives(&mut server, i).len());

    server.update(&mut state, &Clock(42_000_000)).unwrap();
    let msgs = client_receives(&mut server, i);
    assert_eq!(Some(&ServerMsg::Ping(42_000_000)), msgs.last());

    let mut quiet = sim_server(false);
    quiet.update(&mut state, &Clock(u64::MAX)).unwrap();
}

fn closed_link() -> RealNetwork<ServerMsg, ClientMsg> {
    let mut link = RealNetwork::new();
    link.close();
    link
}

#[test]
fn a_client_whose_channel_fails_is_disconnected_and_the_others_are_told() {
    let mut server: ServerSystem<RealServer, RealNetwork<ServerMsg, ClientMsg>> =
        ServerSystem::new(RealServer::new(), false).unwrap();
    let mut state = World::new();
    assert!(server.accept(&mut state, RealNetwork::new()));
    assert!(server.accept(&mut state, RealNetwork::new()));
    assert!(server.accept(&mut state, RealNetwork::new()));
    while server.channel_mut(0).next_outbound().is_some() {}
    while server.channel_mut(2).next_outbound().is_some() {}

    // the second client's connection breaks
    server.channel_mut(1).close();
    server.tick(0, &mut state);
    assert_eq!((0, true), server.client(0));
    assert_eq!((1, false), server.client(1));
    assert_eq!((2, true), server.client(2));
    assert_eq!(Some(Dead), state.get(1).unwrap().dead);
    assert_eq!(None, state.get(0).unwrap().dead);
    while server.channel_mut(0).next_outbound().is_some() {}
    while server.channel_mut(2).next_outbound().is_some() {}

    // the teardown tells the others before the avatar goes
    server.teardown_dead_entities(&mut state);
    assert!(!state.contains(1));
    assert!(state.contains(0));
    assert!(state.contains(2));
    assert_eq!(2, server.client_count());
    assert_eq!((0, true), server.client(0));
    assert_eq!((2, true), server.client(1));
    assert_eq!(Some(ServerMsg::Kill(1)), server.channel_mut(0).next_outbound());
    assert_eq!(None, server.channel_mut(0).next_outbound());
    assert_eq!(Some(ServerMsg::Kill(1)), server.channel_mut(1).next_outbound());
}

#[test]
fn a_client_that_is_closed_from_the_start_joins_as_disconnected() {
    let mut server: ServerSystem<RealServer, RealNetwork<ServerMsg, ClientMsg>> =
        ServerSystem::new(RealServer::new(), false).unwrap();
    let mut state = World::new();
    assert!(server.accept(&mut state, closed_link()));
    assert_eq!((0, false), server.client(0));
    assert_eq!(Some(Dead), state.get(0).unwrap().dead);
}

#[test]
fn a_dummy_channel_is_always_closed() {
    let mut registry = RealServer::new();
    registry.accept(RealNetwork::new());
    let mut out: Vec<RealNetwork<ServerMsg, ClientMsg>> = vec![];
    gg::network::Server::get_new_clients(&mut registry, &mut out);
    assert_eq!(1, out.len());
    gg::network::Server::get_new_clients(&mut registry, &mut out);
    assert_eq!(0, out.len());

    let mut dummy = DummyChannel {};
    assert!(dummy.enqueue(ServerMsg::Kill(0)).is_err());
    let mut buffer: Vec<ClientMsg> = vec![ClientMsg::Test(1)];
    assert!(dummy.dequeue(&mut buffer).is_err());
    assert_eq!(vec![ClientMsg::Test(1)], buffer);
}

#[test]
fn teardown_tells_only_of_entities_that_clients_know() {
    let mut server = sim_server(false);
    let mut state = World::new();
    let i = join(&mut server, &mut state);
    client_receives(&mut server, i);
    let hidden = state.create_entity().unwrap();
    state.set(hidden, Component::Dead(Dead)).unwrap();
    server.teardown_entity(hidden, &mut state);
    assert_eq!(0, client_receives(&mut server, i).len());
    server.teardown_entity(99, &mut state);
    assert_eq!(0, client_receives(&mut server, i).len());

    state.set(hidden, Component::Network(Network)).unwrap();
    server.teardown_dead_entities(&mut state);
    assert_eq!(vec![ServerMsg::Kill(hidden)], client_receives(&mut server, i));
    assert!(!state.contains(hidden));
}

#[test]
fn a_button_press_ends_up_as_an_attached_mirror() {
    let mut server = sim_server(false);
    let mut state = World::new();
    let mut client = ClientSystem::new(new_key_mapping(76, 74));
    let mut mirror = World::new();
    let gorillas = GorillaSystem { is_latency_compensation_enabled: false };

    let i = join(&mut server, &mut state);
    let (avatar, _) = server.client(i);
    client.update(server.channel_mut(i), &mut mirror).unwrap();
    let local = client.lookup(avatar).unwrap();
    assert!(!mirror.get(local).unwrap().body.unwrap().get_is_attached());

    // the client reports the first button going down
    client.key_down(server.channel_mut(i), 76, false).unwrap();

    // the server applies it
    server.tick(0, &mut state);
    let plan = gorillas.process_user_input(avatar, &mut state);
    assert_eq!(vec![BodyCommand::TryAddRope], plan);
    let rope = Body::Radial(RadialBody::new(
        Vector2 { x: 0, y: 0 },
        0x3f80_0000,
        0,
        0,
        Vector2 { x: 0, y: 0 },
    ));
    state.set(avatar, Component::Body(rope)).unwrap();

    // and broadcasts the body, which the client mirrors
    server.tick(16_000_000, &mut state);
    client.update(server.channel_mut(i), &mut mirror).unwrap();
    assert!(mirror.get(local).unwrap().body.unwrap().get_is_attached());
    assert_eq!(Some(local), client.lookup(avatar));
    assert_eq!(1, mirror.len());
}

#[test]
fn a_client_is_not_taken_in_when_no_id_is_left() {
    let mut registry = SimServer::new(0, 0);
    registry.connect();
    registry.connect();
    registry.connect();
    let mut server: ServerSystem<SimServer, Link> = ServerSystem::new(registry, false).unwrap();
    let mut state = World::starting_at(u64::MAX - 2);
    assert_eq!("out of entity ids", server.init(&mut state).unwrap_err().to_string());
    assert_eq!(2, state.len());
    server.process_new_clients(&mut state);
    assert_eq!(0, server.client_count());

    let mut room_for_two = World::starting_at(u64::MAX - 2);
    let mut registry = SimServer::new(0, 0);
    registry.connect();
    registry.connect();
    registry.connect();
    let mut server: ServerSystem<SimServer, Link> = ServerSystem::new(registry, false).unwrap();
    server.process_new_clients(&mut room_for_two);
    assert_eq!(2, server.client_count());
    assert_eq!((u64::MAX - 1, true), server.client(1));
}

#[test]
fn an_update_at_a_time_beyond_range_fails_and_does_nothing() {
    let mut server = sim_server(true);
    let mut state = World::new();
    let i = join(&mut server, &mut state);
    client_receives(&mut server, i);

    // a probe is due at once, and the next would be beyond the clock's range
    let late = u64::MAX - LATENCY_MEASUREMENT_PERIOD as u64 + 1;
    let failed = server.update_at(late, &mut state).unwrap_err();
    assert_eq!("clock out of range", failed.to_string());
    assert_eq!(0, client_receives(&mut server, i).len());
    assert_eq!(1, server.client_count());

    // the last time in range
    server.update_at(late - 1, &mut state).unwrap();
    assert_eq!(Some(&ServerMsg::Ping(late - 1)), client_receives(&mut server, i).last());

    // the next probe is due at the end of time: before it, nothing is due
    server.update_at(u64::MAX - 1, &mut state).unwrap();
    assert_eq!(None, client_receives(&mut server, i).last());
    assert!(server.update_at(u64::MAX, &mut state).is_err());

    let mut quiet = sim_server(false);
    quiet.update_at(u64::MAX, &mut state).unwrap();
}

#[test]
fn the_input_of_each_client_waits_on_its_own_avatar_only() {
    let mut server = sim_server(false);
    let mut state = World::new();
    let bystander = state.create_entity().unwrap();
    let first = join(&mut server, &mut state);
    let second = join(&mut server, &mut state);
    let third = join(&mut server, &mut state);
    let one_down = InputEvent { button: Button::One, is_down: true };
    let one_up = InputEvent { button: Button::One, is_down: false };
    let two_down = InputEvent { button: Button::Two, is_down: true };
    state.push_input_event(server.client(second).0, two_down);
    server.channel_mut(second).peer_enqueue(ClientMsg::Input(one_down));
    server.channel_mut(first).peer_enqueue(ClientMsg::Input(two_down));
    server.channel_mut(second).peer_enqueue(ClientMsg::Pong(0));
    server.channel_mut(second).peer_enqueue(ClientMsg::Input(one_up));

    server.process_client_msgs(10, &mut state);

    let waiting = |state: &World, id: u64| -> Vec<InputEvent> {
        state.get(id).unwrap().gorilla.as_ref().map(|g| g.input_events.clone()).unwrap_or_default()
    };
    assert_eq!(vec![two_down], waiting(&state, server.client(first).0));
    assert_eq!(vec![two_down, one_down, one_up], waiting(&state, server.client(second).0));
    assert_eq!(0, waiting(&state, server.client(third).0).len());
    assert_eq!(0, waiting(&state, bystander).len());

    // the channels are drained: nothing is acted on twice
    server.process_client_msgs(11, &mut state);
    assert_eq!(vec![two_down], waiting(&state, server.client(first).0));
    assert_eq!(vec![two_down, one_down, one_up], waiting(&state, server.client(second).0));
}
