use gg::network::step::SimChannel;
use gg::network::{RxChannel, TxChannel};

#[test]
fn test_sim_channel_zero_latency() {
    let mut subject = SimChannel::<u8>::new(0);
    let mut buffer = vec![0u8];
    subject.enqueue(1).unwrap();
    subject.enqueue(2).unwrap();
    subject.enqueue(3).unwrap();
    subject.dequeue(&mut buffer).unwrap();
    assert_eq!(3, buffer.len());
    assert_eq!(1, buffer[0]);
    assert_eq!(2, buffer[1]);
    assert_eq!(3, buffer[2]);

    subject.step();

    subject.dequeue(&mut buffer).unwrap();
    assert_eq!(0, buffer.len());
}

#[test]
fn sim_channel_max_latency() {
    let mut subject = SimChannel::<u8>::new(1);
    let mut buffer = vec![0u8];

    subject.step();
    subject.dequeue(&mut buffer).unwrap();

    subject.step();
    subject.enqueue(1).unwrap();
    subject.dequeue(&mut buffer).unwrap();

    subject.step();
    subject.dequeue(&mut buffer).unwrap();

    assert_eq!(1, buffer.len());
    assert_eq!(1, buffer[0]);
}

#[test]
fn sim_channel_following_latency() {
    let mut subject = SimChannel::<u8>::new(3);
    let mut buffer = vec![0u8];

    subject.enqueue(1).unwrap();
    subject.dequeue(&mut buffer).unwrap();
    assert_eq!(0, buffer.len());

    subject.step();

    subject.enqueue(2).unwrap();
    subject.enqueue(3).unwrap();
    subject.dequeue(&mut buffer).unwrap();
    assert_eq!(0, buffer.len());

    subject.step();

    subject.dequeue(&mut buffer).unwrap();
    assert_eq!(0, buffer.len());

    subject.step();

    subject.dequeue(&mut buffer).unwrap();
    assert_eq!(1, buffer.len());
    assert_eq!(1, buffer[0]);

    subject.step();

    subject.dequeue(&mut buffer).unwrap();
    assert_eq!(2, buffer.len());
    assert_eq!(2, buffer[0]);
    assert_eq!(3, buffer[1]);
}
