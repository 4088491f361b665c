use gg::component::body::{Body, Vector2};
use gg::component::sprite::Sprite;
use gg::colors::rgb;
use gg::ecs::World;
use gg::input::{new_key_mapping, Button, InputEvent};
use gg::network::dummy::DummyChannel;
use gg::network::sim::{SimNetworkEnd, SimServer};
use gg::network::{ClientMsg, RxChannel, Server, ServerMsg, TxChannel};
use gg::system::client::ClientSystem;

const MILLI: u64 = 1_000_000;
const SPACE: u32 = 76;
const RETURN: u32 = 74;

fn connection(latency: u64) -> SimNetworkEnd<ServerMsg, ClientMsg> {
    let mut server = SimServer::new(latency, 0);
    server.connect();
    let mut new_clients = vec![];
    server.get_new_clients(&mut new_clients);
    new_clients.remove(0)
}

fn body(x: u32) -> Body {
    Body::new_dynamic(Vector2 { x, y: 0 }, Vector2 { x: 0, y: 0 }, Vector2 { x: 0, y: 0 })
}

#[test]
fn test_ping_pong() {
    // build a simulated network
    let mut server = SimServer::new(0, 0);
    server.connect();

    // create a new ClientSystem to test
    let mut subject = ClientSystem::new(new_key_mapping(SPACE, RETURN));

    // send the ClientSystem a Ping message
    let mut new_clients: Vec<SimNetworkEnd<ServerMsg, ClientMsg>> = vec![];
    server.get_new_clients(&mut new_clients);
    new_clients[0].enqueue(ServerMsg::Ping(42 * MILLI)).unwrap();

    // Step the ClientSystem so that it can process the Ping message
    let mut state = World::new();
    subject.update(&mut new_clients[0], &mut state).unwrap();

    // Check that it correctly responded with a Pong message
    let mut client_msgs: Vec<ClientMsg> = vec![];
    new_clients[0].dequeue(&mut client_msgs).unwrap();
    assert_eq!(1, client_msgs.len());
    assert_eq!(ClientMsg::Pong(42 * MILLI), client_msgs[0]);
}

#[test]
fn every_ping_is_answered_in_order() {
    let mut net = connection(0);
    let mut subject = ClientSystem::new(new_key_mapping(SPACE, RETURN));
    let mut state = World::new();
    net.enqueue(ServerMsg::Ping(1)).unwrap();
    net.enqueue(ServerMsg::Test(9)).unwrap();
    net.enqueue(ServerMsg::Ping(u64::MAX)).unwrap();
    subject.update(&mut net, &mut state).unwrap();
    let mut answers: Vec<ClientMsg> = vec![];
    net.dequeue(&mut answers).unwrap();
    assert_eq!(vec![ClientMsg::Pong(1), ClientMsg::Pong(u64::MAX)], answers);
    assert_eq!(0, state.len());
}

#[test]
fn set_body_makes_a_mirror_and_copies_the_state() {
    let mut net = connection(0);
    let mut subject = ClientSystem::new(new_key_mapping(SPACE, RETURN));
    let mut state = World::new();
    net.enqueue(ServerMsg::SetBody(17, body(1))).unwrap();
    net.enqueue(ServerMsg::SetFocus(17)).unwrap();
    let sprite = Sprite::new(
        rgb(true, false, false),
        Vector2 { x: 1, y: 2 },
        Vector2 { x: 3, y: 4 },
        Vector2 { x: 5, y: 6 },
    );
    net.enqueue(ServerMsg::SetSprite(17, sprite)).unwrap();
    net.enqueue(ServerMsg::SetBody(17, body(2))).unwrap();
    subject.update(&mut net, &mut state).unwrap();

    let local = subject.lookup(17).unwrap();
    assert_eq!(1, state.len());
    let mirror = state.get(local).unwrap();
    assert_eq!(Some(body(2)), mirror.body);
    assert_eq!(Some(sprite), mirror.sprite);
    assert!(mirror.focus.is_some());
    assert_eq!(None, subject.lookup(18));
}

#[test]
fn a_killed_entity_gets_a_new_mirror_when_told_again() {
    let mut net = connection(0);
    let mut subject = ClientSystem::new(new_key_mapping(SPACE, RETURN));
    let mut state = World::new();

    net.enqueue(ServerMsg::SetBody(5, body(1))).unwrap();
    subject.update(&mut net, &mut state).unwrap();
    let first = subject.lookup(5).unwrap();
    assert!(state.contains(first));

    net.enqueue(ServerMsg::Kill(5)).unwrap();
    subject.update(&mut net, &mut state).unwrap();
    assert_eq!(None, subject.lookup(5));
    assert!(!state.contains(first));
    assert_eq!(0, state.len());

    net.enqueue(ServerMsg::SetBody(5, body(2))).unwrap();
    subject.update(&mut net, &mut state).unwrap();
    let second = subject.lookup(5).unwrap();
    assert_ne!(first, second);
    assert!(!state.contains(first));
    assert_eq!(Some(body(2)), state.get(second).unwrap().body);
    assert_eq!(1, state.len());
}

#[test]
fn all_three_in_one_batch_leave_one_new_mirror() {
    let mut net = connection(0);
    let mut subject = ClientSystem::new(new_key_mapping(SPACE, RETURN));
    let mut state = World::new();
    net.enqueue(ServerMsg::SetBody(5, body(1))).unwrap();
    net.enqueue(ServerMsg::Kill(5)).unwrap();
    net.enqueue(ServerMsg::SetBody(5, body(2))).unwrap();
    subject.update(&mut net, &mut state).unwrap();
    let local = subject.lookup(5).unwrap();
    assert_eq!(1, local);
    assert!(!state.contains(0));
    assert_eq!(Some(body(2)), state.get(local).unwrap().body);
}

#[test]
fn kill_of_an_unknown_entity_changes_nothing() {
    let mut net = connection(0);
    let mut subject = ClientSystem::new(new_key_mapping(SPACE, RETURN));
    let mut state = World::new();
    net.enqueue(ServerMsg::SetBody(1, body(1))).unwrap();
    net.enqueue(ServerMsg::Kill(2)).unwrap();
    net.enqueue(ServerMsg::Kill(2)).unwrap();
    subject.update(&mut net, &mut state).unwrap();
    assert_eq!(1, state.len());
    assert!(subject.lookup(1).is_some());
    assert_eq!(None, subject.lookup(2));
    // no id was used up for the unknown entity
    assert_eq!(Some(1), state.create_entity());
}

#[test]
fn apply_answers_only_pings() {
    let mut subject = ClientSystem::new(new_key_mapping(SPACE, RETURN));
    let mut state = World::new();
    assert_eq!(Some(ClientMsg::Pong(7)), subject.apply(&mut state, ServerMsg::Ping(7)).unwrap());
    assert_eq!(None, subject.apply(&mut state, ServerMsg::Test(7)).unwrap());
    assert_eq!(None, subject.apply(&mut state, ServerMsg::SetFocus(7)).unwrap());
    assert_eq!(None, subject.apply(&mut state, ServerMsg::Kill(7)).unwrap());
    assert_eq!(None, subject.lookup(7));
}

#[test]
fn key_presses_become_input_messages() {
    let mut net = connection(0);
    let subject = ClientSystem::new(new_key_mapping(SPACE, RETURN));
    subject.key_down(&mut net, SPACE, false).unwrap();
    subject.key_down(&mut net, SPACE, true).unwrap();
    subject.key_down(&mut net, 1, false).unwrap();
    subject.key_up(&mut net, RETURN).unwrap();
    subject.key_up(&mut net, 1).unwrap();
    let mut sent: Vec<ClientMsg> = vec![];
    net.dequeue(&mut sent).unwrap();
    assert_eq!(
        vec![
            ClientMsg::Input(InputEvent { button: Button::One, is_down: true }),
            ClientMsg::Input(InputEvent { button: Button::Two, is_down: false }),
        ],
        sent
    );
}

#[test]
fn a_key_bound_to_both_buttons_drives_the_second() {
    let mapping = new_key_mapping(4, 4);
    assert_eq!(Some(Button::Two), mapping.button(4));
    assert_eq!(None, mapping.button(5));
}

#[test]
fn a_closed_transport_fails_the_update_and_the_key() {
    let mut net = DummyChannel {};
    let mut subject = ClientSystem::new(new_key_mapping(SPACE, RETURN));
    let mut state = World::new();
    let failed = subject.update(&mut net, &mut state).unwrap_err();
    assert_eq!("channel closed", failed.to_string());
    assert_eq!(0, state.len());
    assert!(subject.key_down(&mut net, SPACE, false).is_err());
    // nothing is sent for an unbound key, so nothing fails
    assert!(subject.key_down(&mut net, 1, false).is_ok());
    assert!(subject.key_up(&mut net, RETURN).is_err());
}

#[test]
fn a_message_that_needs_a_mirror_fails_when_no_id_is_left() {
    let mut net = connection(0);
    let mut subject = ClientSystem::new(new_key_mapping(SPACE, RETURN));
    let mut state = World::starting_at(u64::MAX - 1);
    net.enqueue(ServerMsg::SetBody(1, body(1))).unwrap();
    net.enqueue(ServerMsg::Ping(5)).unwrap();
    net.enqueue(ServerMsg::SetBody(1, body(2))).unwrap();
    net.enqueue(ServerMsg::Kill(9)).unwrap();
    net.enqueue(ServerMsg::SetFocus(2)).unwrap();
    net.enqueue(ServerMsg::Ping(6)).unwrap();
    let failed = subject.update(&mut net, &mut state).unwrap_err();
    assert_eq!("out of entity ids", failed.to_string());
    // what came before the blocked message has been acted on, and answered
    assert_eq!(Some(body(2)), state.get(u64::MAX - 1).unwrap().body);
    assert_eq!(None, subject.lookup(2));
    let mut answers: Vec<ClientMsg> = vec![];
    net.dequeue(&mut answers).unwrap();
    assert_eq!(vec![ClientMsg::Pong(5)], answers);
    // a message for an entity that has a mirror is not blocked
    assert!(subject.apply(&mut state, ServerMsg::SetFocus(1)).is_ok());
    assert!(subject.apply(&mut state, ServerMsg::SetFocus(2)).is_err());
}
