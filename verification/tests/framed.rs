use gg::network::framed::{frame, FrameBuffer, RealNetwork};
use gg::network::{ClientMsg, RxChannel, ServerMsg, TxChannel};

#[test]
fn a_frame_is_the_length_in_four_bytes_and_the_message() {
    assert_eq!(vec![0, 0, 0, 0], frame(&vec![]).unwrap());
    assert_eq!(vec![0, 0, 0, 3, 7, 8, 9], frame(&vec![7, 8, 9]).unwrap());
    let long = vec![1u8; 267];
    let framed = frame(&long).unwrap();
    assert_eq!(&[0x00, 0x00, 0x01, 0x0b], &framed[..4]);
    assert_eq!(&long[..], &framed[4..]);
    let longer = vec![2u8; 0x01_02_03];
    assert_eq!(&[0x00, 0x01, 0x02, 0x03], &frame(&longer).unwrap()[..4]);
}

#[test]
fn frames_come_out_as_they_went_in() {
    let mut buffer = FrameBuffer::new();
    let mut stream = frame(&vec![1, 2, 3]).unwrap();
    stream.extend(frame(&vec![]).unwrap());
    stream.extend(frame(&vec![9; 300]).unwrap());
    buffer.push(&stream);
    assert_eq!(Some(vec![1, 2, 3]), buffer.next_frame());
    assert_eq!(Some(vec![]), buffer.next_frame());
    assert_eq!(Some(vec![9; 300]), buffer.next_frame());
    assert_eq!(None, buffer.next_frame());
}

#[test]
fn a_frame_that_comes_in_pieces_waits_for_its_end() {
    let mut buffer = FrameBuffer::new();
    let stream = frame(&vec![5, 6, 7, 8]).unwrap();
    for byte in &stream[..stream.len() - 1] {
        buffer.push(&vec![*byte]);
        assert_eq!(None, buffer.next_frame());
    }
    buffer.push(&vec![stream[stream.len() - 1], 0, 0]);
    assert_eq!(Some(vec![5, 6, 7, 8]), buffer.next_frame());
    assert_eq!(None, buffer.next_frame());
    buffer.push(&vec![0, 1, 42]);
    assert_eq!(Some(vec![42]), buffer.next_frame());
}

#[test]
fn a_frame_of_any_length_is_taken() {
    let mut buffer = FrameBuffer::new();
    for length in [2048usize, 2049, 5000, 70_000] {
        let message: Vec<u8> = (0..length).map(|k| (k % 251) as u8).collect();
        buffer.push(&frame(&message).unwrap());
        assert_eq!(Some(message), buffer.next_frame());
        assert_eq!(None, buffer.next_frame());
    }
}

#[test]
fn a_frame_that_announces_more_than_came_waits() {
    let mut buffer = FrameBuffer::new();
    buffer.push(&vec![0xff, 0xff, 0xff, 0xff, 1]);
    assert_eq!(None, buffer.next_frame());
    buffer.push(&vec![0, 0, 8, 1]);
    assert_eq!(None, buffer.next_frame());
    assert_eq!(0, buffer.take_frames().len());
}

#[test]
fn all_whole_frames_are_taken_at_once() {
    let mut buffer = FrameBuffer::new();
    let mut stream = frame(&vec![1]).unwrap();
    stream.extend(frame(&vec![2; 3000]).unwrap());
    stream.extend(vec![0, 0, 0, 2, 9]);
    buffer.push(&stream);
    assert_eq!(vec![vec![1], vec![2; 3000]], buffer.take_frames());
    buffer.push(&vec![8]);
    assert_eq!(vec![vec![9, 8]], buffer.take_frames());
}

#[test]
fn test_real_network_hand_over() {
    let mut client_1: RealNetwork<ClientMsg, ServerMsg> = RealNetwork::new();
    let mut server_1: RealNetwork<ServerMsg, ClientMsg> = RealNetwork::new();

    client_1.enqueue(ClientMsg::Test(1)).unwrap();
    client_1.enqueue(ClientMsg::Test(3)).unwrap();
    client_1.enqueue(ClientMsg::Test(5)).unwrap();

    // what the two workers of each end do
    while let Some(msg) = client_1.next_outbound() {
        server_1.deliver(msg);
    }

    let mut server_msg_buffer = vec![];
    server_1.dequeue(&mut server_msg_buffer).unwrap();
    assert_eq!(3, server_msg_buffer.len());
    assert_eq!(ClientMsg::Test(1), server_msg_buffer[0]);
    assert_eq!(ClientMsg::Test(3), server_msg_buffer[1]);
    assert_eq!(ClientMsg::Test(5), server_msg_buffer[2]);

    server_1.dequeue(&mut server_msg_buffer).unwrap();
    assert_eq!(0, server_msg_buffer.len());
}

#[test]
fn a_closed_end_refuses_both_ways_and_stays_closed() {
    let mut end: RealNetwork<ClientMsg, ServerMsg> = RealNetwork::new();
    assert!(!end.closed());
    end.deliver(ServerMsg::Kill(1));
    end.close();
    assert!(end.closed());
    let refused = end.enqueue(ClientMsg::Test(1)).unwrap_err();
    assert_eq!("channel closed", refused.to_string());
    let mut buffer = vec![ServerMsg::Kill(9)];
    let refused = end.dequeue(&mut buffer).unwrap_err();
    assert_eq!("channel closed", refused.to_string());
    assert_eq!(vec![ServerMsg::Kill(9)], buffer);
    assert!(end.enqueue(ClientMsg::Test(2)).is_err());
    assert!(end.dequeue(&mut buffer).is_err());
    assert_eq!(None, end.next_outbound());
}

#[test]
fn test_real_server() {
    let mut server = gg::network::framed::RealServer::new();
    let mut new_clients: Vec<RealNetwork<ServerMsg, ClientMsg>> = vec![];
    gg::network::Server::get_new_clients(&mut server, &mut new_clients);
    assert_eq!(0, new_clients.len());

    let mut first = RealNetwork::new();
    first.deliver(ClientMsg::Test(1));
    server.accept(first);
    let mut second = RealNetwork::new();
    second.deliver(ClientMsg::Test(2));
    server.accept(second);

    gg::network::Server::get_new_clients(&mut server, &mut new_clients);
    assert_eq!(2, new_clients.len());
    let mut buffer: Vec<ClientMsg> = vec![];
    new_clients[0].dequeue(&mut buffer).unwrap();
    assert_eq!(vec![ClientMsg::Test(1)], buffer);
    new_clients[1].dequeue(&mut buffer).unwrap();
    assert_eq!(vec![ClientMsg::Test(2)], buffer);

    gg::network::Server::get_new_clients(&mut server, &mut new_clients);
    assert_eq!(0, new_clients.len());
}

#[test]
fn reading_leaves_what_waits_to_be_sent() {
    let mut end: RealNetwork<ClientMsg, ServerMsg> = RealNetwork::new();
    end.enqueue(ClientMsg::Test(1)).unwrap();
    end.enqueue(ClientMsg::Test(2)).unwrap();
    end.deliver(ServerMsg::Test(9));
    let mut buffer = vec![];
    end.dequeue(&mut buffer).unwrap();
    assert_eq!(1, buffer.len());
    assert!(matches!(end.next_outbound(), Some(ClientMsg::Test(1))));
    assert!(matches!(end.next_outbound(), Some(ClientMsg::Test(2))));
    assert!(end.next_outbound().is_none());
    assert!(!end.closed());
}
