use gg::network::sim::{SimClock, SimNetworkEnd, SimServer};
use gg::network::step::SimNetwork;
use gg::network::{ClientMsg, RxChannel, Server, ServerMsg, TxChannel};

fn link(latency: u64) -> SimNetworkEnd<u8, u16> {
    SimNetworkEnd::new(latency, 0)
}

#[test]
fn with_no_latency_a_message_is_seen_at_once() {
    let mut end = link(0);
    end.set_time(1234);
    end.enqueue(1).unwrap();
    let mut seen: Vec<u8> = vec![];
    end.peer_dequeue(&mut seen);
    assert_eq!(vec![1], seen);

    end.peer_enqueue(300);
    end.peer_enqueue(301);
    let mut back: Vec<u16> = vec![9];
    end.dequeue(&mut back).unwrap();
    assert_eq!(vec![300, 301], back);
    end.dequeue(&mut back).unwrap();
    assert_eq!(0, back.len());
}

#[test]
fn a_message_is_held_back_for_exactly_the_latency() {
    let mut end = link(3);
    let mut seen: Vec<u8> = vec![];
    // sent in tick 2
    end.set_time(2);
    end.enqueue(7).unwrap();
    end.enqueue(8).unwrap();
    for tick in 2..5 {
        end.set_time(tick);
        end.peer_dequeue(&mut seen);
        assert_eq!(0, seen.len());
    }
    end.set_time(5);
    end.peer_dequeue(&mut seen);
    assert_eq!(vec![7, 8], seen);
    end.set_time(6);
    end.peer_dequeue(&mut seen);
    assert_eq!(0, seen.len());
}

#[test]
fn the_two_directions_do_not_touch_each_other() {
    let mut end = link(1);
    end.enqueue(1).unwrap();
    end.peer_enqueue(1000);
    end.set_time(1);
    let mut up: Vec<u8> = vec![];
    let mut down: Vec<u16> = vec![];
    end.dequeue(&mut down).unwrap();
    assert_eq!(vec![1000], down);
    end.peer_dequeue(&mut up);
    assert_eq!(vec![1], up);
}

#[test]
fn nothing_is_lost_doubled_or_reordered() {
    let mut end = link(2);
    let mut received: Vec<u8> = vec![];
    let mut batch: Vec<u8> = vec![];
    let mut next: u8 = 0;
    for tick in 0..20u64 {
        end.set_time(tick);
        for _ in 0..(tick % 3) {
            end.enqueue(next).unwrap();
            next += 1;
        }
        if tick % 4 != 1 {
            end.peer_dequeue(&mut batch);
            received.extend(batch.iter());
        }
    }
    end.set_time(100);
    end.peer_dequeue(&mut batch);
    received.extend(batch.iter());
    assert_eq!((0..next).collect::<Vec<u8>>(), received);
}

#[test]
fn a_late_message_holds_back_those_behind_it() {
    // the clock is set back between the two sends, so the second is due first
    let mut end = link(5);
    end.set_time(10);
    end.enqueue(1).unwrap();
    end.set_time(0);
    end.enqueue(2).unwrap();
    let mut seen: Vec<u8> = vec![];
    end.set_time(5);
    end.peer_dequeue(&mut seen);
    assert_eq!(0, seen.len());
    end.set_time(15);
    end.peer_dequeue(&mut seen);
    assert_eq!(vec![1, 2], seen);
}

#[test]
fn deadlines_reach_the_end_of_time() {
    let mut end: SimNetworkEnd<u8, u8> = SimNetworkEnd::new(1, u64::MAX - 1);
    end.enqueue(1).unwrap();
    let mut seen: Vec<u8> = vec![];
    end.peer_dequeue(&mut seen);
    assert_eq!(0, seen.len());
    assert_eq!(1, end.get_latency());
    end.set_time(u64::MAX - 1);
    assert_eq!(u64::MAX - 1, end.get_time());
    let clock = SimClock::new(2, u64::MAX - 2);
    assert_eq!(u64::MAX, clock.deadline());
}

#[test]
fn new_connections_start_with_the_registry_s_clock() {
    let mut registry = SimServer::new(4, 10);
    assert_eq!(0, registry.connect());
    registry.set_time(20);
    assert_eq!(1, registry.connect());
    let mut ends: Vec<SimNetworkEnd<ServerMsg, ClientMsg>> = vec![];
    registry.get_new_clients(&mut ends);
    assert_eq!(2, ends.len());
    assert_eq!(10, ends[0].get_time());
    assert_eq!(20, ends[1].get_time());
    assert_eq!(4, ends[1].get_latency());
    registry.get_new_clients(&mut ends);
    assert_eq!(0, ends.len());
    assert_eq!(0, registry.connect());
}

#[test]
fn both_peers_work_on_one_connection() {
    let mut registry = SimServer::new(0, 0);
    registry.connect();
    let mut ends: Vec<SimNetworkEnd<ServerMsg, ClientMsg>> = vec![];
    registry.get_new_clients(&mut ends);
    let end = &mut ends[0];
    // the server sends, the client receives
    end.enqueue(ServerMsg::Kill(3)).unwrap();
    let mut at_client: Vec<ServerMsg> = vec![];
    end.dequeue(&mut at_client).unwrap();
    assert_eq!(vec![ServerMsg::Kill(3)], at_client);
    // the client sends, the server receives
    end.enqueue(ClientMsg::Pong(3)).unwrap();
    let mut at_server: Vec<ClientMsg> = vec![];
    end.dequeue(&mut at_server).unwrap();
    assert_eq!(vec![ClientMsg::Pong(3)], at_server);
}

#[test]
fn the_stepped_network_delays_both_directions() {
    let mut network = SimNetwork::new(1);
    let mut up: Vec<ClientMsg> = vec![];
    let mut down: Vec<ServerMsg> = vec![];
    network.enqueue(ClientMsg::Test(1)).unwrap();
    network.enqueue(ServerMsg::Test(2)).unwrap();
    network.dequeue(&mut up).unwrap();
    network.dequeue(&mut down).unwrap();
    assert_eq!(0, up.len());
    assert_eq!(0, down.len());
    network.step();
    network.dequeue(&mut up).unwrap();
    network.dequeue(&mut down).unwrap();
    assert_eq!(vec![ClientMsg::Test(1)], up);
    assert_eq!(vec![ServerMsg::Test(2)], down);
}
