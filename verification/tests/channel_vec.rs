use gg::network::server::ChannelVec;

#[test]
fn test_channel_vec() {
    let mut subject = ChannelVec::<String>::new(2);

    subject.open_channel("Channel 1".into()).unwrap();
    subject.open_channel("Channel 1".into()).unwrap();
}

#[test]
fn channel_vec_gives_the_lowest_free_place() {
    let mut subject = ChannelVec::<u8>::new(3);
    assert_eq!(0, subject.open_channel(7).unwrap());
    assert_eq!(1, subject.open_channel(8).unwrap());
    assert_eq!(2, subject.open_channel(9).unwrap());
}

#[test]
fn channel_vec_full_server_refuses() {
    let mut subject = ChannelVec::<u8>::new(1);
    assert_eq!(0, subject.open_channel(7).unwrap());
    let refused = subject.open_channel(8).unwrap_err();
    assert_eq!("server is full", refused.to_string());

    let mut none = ChannelVec::<u8>::new(0);
    assert_eq!("server is full", none.open_channel(1).unwrap_err().to_string());
}
