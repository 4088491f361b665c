use gg::network::sim::{SimNetworkEnd, SimServer};
use gg::network::{ClientMsg, RxChannel, Server, ServerMsg, TxChannel};

const MILLI: u64 = 1_000_000;

#[test]
fn test_sim_server() {
    _test_sim_server(0, vec![vec![], vec![], vec![]], vec![vec![], vec![], vec![]]);

    _test_sim_server(0, vec![vec![1], vec![], vec![]], vec![vec![], vec![], vec![]]);
    _test_sim_server(0, vec![vec![1, 2, 3], vec![], vec![]], vec![vec![], vec![], vec![]]);
    _test_sim_server(0, vec![vec![1], vec![2], vec![3]], vec![vec![], vec![], vec![]]);

    _test_sim_server(0, vec![vec![], vec![], vec![]], vec![vec![1], vec![], vec![]]);
    _test_sim_server(0, vec![vec![], vec![], vec![]], vec![vec![1, 2, 3], vec![], vec![]]);
    _test_sim_server(0, vec![vec![], vec![], vec![]], vec![vec![1], vec![2], vec![3]]);

    _test_sim_server(0, vec![vec![1, 2, 3], vec![], vec![]], vec![vec![1, 2, 3], vec![], vec![]]);
    _test_sim_server(0, vec![vec![1], vec![2], vec![3]], vec![vec![1], vec![2], vec![3]]);

    _test_sim_server(1, vec![vec![], vec![], vec![]], vec![vec![], vec![], vec![]]);

    _test_sim_server(1, vec![vec![1], vec![], vec![]], vec![vec![], vec![], vec![]]);
    _test_sim_server(1, vec![vec![1, 2, 3], vec![], vec![]], vec![vec![], vec![], vec![]]);
    _test_sim_server(1, vec![vec![1], vec![2], vec![3]], vec![vec![], vec![], vec![]]);

    _test_sim_server(1, vec![vec![], vec![], vec![]], vec![vec![1], vec![], vec![]]);
    _test_sim_server(1, vec![vec![], vec![], vec![]], vec![vec![1, 2, 3], vec![], vec![]]);
    _test_sim_server(1, vec![vec![], vec![], vec![]], vec![vec![1], vec![2], vec![3]]);

    _test_sim_server(1, vec![vec![1, 2, 3], vec![], vec![]], vec![vec![1, 2, 3], vec![], vec![]]);
    _test_sim_server(1, vec![vec![1], vec![2], vec![3]], vec![vec![1], vec![2], vec![3]]);
}

fn _test_sim_server(latency: u64, client_actions: Vec<Vec<u32>>, server_actions: Vec<Vec<u32>>) {
    let client_msgs = client_actions
        .iter()
        .map(|step| step.iter().map(|&msg| ClientMsg::Test(msg)).collect::<Vec<_>>())
        .collect::<Vec<_>>();
    let server_msgs = server_actions
        .iter()
        .map(|step| step.iter().map(|&msg| ServerMsg::Test(msg)).collect::<Vec<_>>())
        .collect::<Vec<_>>();

    let mut time = 0u64;
    let mut server = SimServer::new(latency * MILLI, time);

    let place = server.connect();
    let mut new_clients: Vec<SimNetworkEnd<ServerMsg, ClientMsg>> = vec![];
    server.get_new_clients(&mut new_clients);
    let connection = &mut new_clients[place];

    let mut client_msg_buffer: Vec<ServerMsg> = vec![];
    let mut server_msg_buffer: Vec<ClientMsg> = vec![];

    for step in 0..(client_msgs.len() + latency as usize) {
        if step < client_msgs.len() {
            for client_action in client_msgs[step].iter().map(|m| m.clone()) {
                connection.enqueue(client_action).unwrap();
            }

            for server_action in server_msgs[step].iter().map(|m| m.clone()) {
                connection.enqueue(server_action).unwrap();
            }
        }

        server_msg_buffer.clear();
        connection.dequeue(&mut server_msg_buffer).unwrap();

        if step < latency as usize {
            assert_eq!(0, server_msg_buffer.len())
        } else {
            assert_eq!(client_msgs[step - latency as usize].len(), server_msg_buffer.len());
            for i in 0..server_msg_buffer.len() {
                assert_eq!(client_msgs[step - latency as usize][i], server_msg_buffer[i]);
            }
        }

        client_msg_buffer.clear();
        connection.dequeue(&mut client_msg_buffer).unwrap();

        if step < latency as usize {
            assert_eq!(0, client_msg_buffer.len())
        } else {
            assert_eq!(server_msgs[step - latency as usize].len(), client_msg_buffer.len());
            for i in 0..client_msg_buffer.len() {
                assert_eq!(server_msgs[step - latency as usize][i], client_msg_buffer[i]);
            }
        }

        time += MILLI;
        connection.set_time(time);
    }
}
