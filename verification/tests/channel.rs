use ctrlc::{
    Channel, Counter, Error, SignalMap, SignalType, UnixChannel, CTRL_C_SIGNAL,
    TERMINATION_SIGNAL,
};

/// The registry over the usual POSIX signal numbers, as a platform would
/// enumerate them.
fn posix_map() -> SignalMap {
    SignalMap::new(vec![1, 2, 3, 6, 10, 12, 13, 14, 15, 17, 18, 19, 20, 21, 22])
}

#[test]
fn channel_receives_in_delivery_order() {
    let mut map = posix_map();
    let channel = Channel::new_with_multiple()
        .add_signal(SignalType::Ctrlc)
        .add_signal(SignalType::Termination)
        .build(&mut map)
        .unwrap();
    map.deliver(TERMINATION_SIGNAL);
    map.deliver(CTRL_C_SIGNAL);
    assert_eq!(channel.recv(&mut map).unwrap(), SignalType::Termination);
    assert_eq!(channel.recv(&mut map).unwrap(), SignalType::Ctrlc);
    assert!(matches!(channel.try_recv(&mut map), Err(Error::ChannelEmpty)));
}

#[test]
fn try_recv_empty_then_delivery() {
    let mut map = posix_map();
    let channel = Channel::new(SignalType::Ctrlc, &mut map).unwrap();
    assert!(matches!(channel.try_recv(&mut map), Err(Error::ChannelEmpty)));
    map.deliver(CTRL_C_SIGNAL);
    assert_eq!(channel.try_recv(&mut map).unwrap(), SignalType::Ctrlc);
    assert!(matches!(channel.try_recv(&mut map), Err(Error::ChannelEmpty)));
}

#[test]
fn each_recv_consumes_exactly_one_delivery() {
    let mut map = posix_map();
    let channel = Channel::new(SignalType::Ctrlc, &mut map).unwrap();
    map.deliver(CTRL_C_SIGNAL);
    map.deliver(CTRL_C_SIGNAL);
    assert_eq!(channel.recv(&mut map).unwrap(), SignalType::Ctrlc);
    assert_eq!(channel.recv(&mut map).unwrap(), SignalType::Ctrlc);
    assert!(matches!(channel.try_recv(&mut map), Err(Error::ChannelEmpty)));
}

#[test]
fn channel_no_such_signal_preserves_signal() {
    let mut map = posix_map();
    match Channel::new(SignalType::Other(999), &mut map) {
        Err(Error::NoSuchSignal(SignalType::Other(sig))) => assert_eq!(sig, 999),
        ret => panic!("{:?}", ret),
    }
}

#[test]
fn channel_too_many_signals() {
    let signals: Vec<i32> = (100..200).collect();
    let mut map = SignalMap::new(signals.clone());
    let mut builder = Channel::new_with_multiple();
    for s in &signals[..65] {
        builder = builder.add_signal(SignalType::Other(*s));
    }
    assert!(matches!(builder.build(&mut map), Err(Error::TooManySignals)));
}

#[test]
fn channel_at_wait_object_cap_is_accepted() {
    let signals: Vec<i32> = (100..200).collect();
    let mut map = SignalMap::new(signals.clone());
    let mut builder = Channel::new_with_multiple();
    for s in &signals[..64] {
        builder = builder.add_signal(SignalType::Other(*s));
    }
    assert!(builder.build(&mut map).is_ok());
}

#[test]
fn second_channel_for_same_signal_is_refused() {
    let mut map = posix_map();
    let first = Channel::new(SignalType::Ctrlc, &mut map).unwrap();
    assert!(matches!(
        Channel::new(SignalType::Ctrlc, &mut map),
        Err(Error::MultipleHandlers)
    ));
    first.release(&mut map);
    assert!(Channel::new(SignalType::Ctrlc, &mut map).is_ok());
}

#[test]
fn failed_group_subscription_claims_nothing() {
    let mut map = posix_map();
    let holder = Counter::new(SignalType::Termination, &mut map).unwrap();
    // Termination is already held, so the whole request must fail ...
    let r = Channel::new_with_multiple()
        .add_signal(SignalType::Ctrlc)
        .add_signal(SignalType::Termination)
        .build(&mut map);
    assert!(matches!(r, Err(Error::MultipleHandlers)));
    // ... and must not have claimed Ctrl-C on the way.
    assert!(Counter::new(SignalType::Ctrlc, &mut map).is_ok());
    drop(holder);
}

#[test]
fn duplicate_signal_in_one_request_is_refused() {
    let mut map = posix_map();
    let r = Channel::new_with_multiple()
        .add_signal(SignalType::Ctrlc)
        .add_signal(SignalType::Other(CTRL_C_SIGNAL))
        .build(&mut map);
    assert!(matches!(r, Err(Error::MultipleHandlers)));
    assert!(Channel::new(SignalType::Ctrlc, &mut map).is_ok());
}

#[test]
fn channels_do_not_steal_each_others_deliveries() {
    let mut map = posix_map();
    let ctrlc_channel = Channel::new(SignalType::Ctrlc, &mut map).unwrap();
    let term_channel = Channel::new(SignalType::Termination, &mut map).unwrap();
    map.deliver(CTRL_C_SIGNAL);
    map.deliver(TERMINATION_SIGNAL);
    assert_eq!(term_channel.recv(&mut map).unwrap(), SignalType::Termination);
    assert_eq!(ctrlc_channel.recv(&mut map).unwrap(), SignalType::Ctrlc);
}

#[test]
fn num_of_ready_fds_counts_ready_emitters() {
    let mut map = posix_map();
    let channel = UnixChannel::new(vec![CTRL_C_SIGNAL, TERMINATION_SIGNAL], &mut map).unwrap();
    assert_eq!(channel.num_of_ready_fds(&map), 0);
    map.deliver(CTRL_C_SIGNAL);
    map.deliver(CTRL_C_SIGNAL);
    assert_eq!(channel.num_of_ready_fds(&map), 1);
    map.deliver(TERMINATION_SIGNAL);
    assert_eq!(channel.num_of_ready_fds(&map), 2);
    assert_eq!(channel.recv(&mut map).unwrap(), SignalType::Ctrlc);
    assert_eq!(channel.num_of_ready_fds(&map), 2);
    assert_eq!(channel.recv(&mut map).unwrap(), SignalType::Ctrlc);
    assert_eq!(channel.num_of_ready_fds(&map), 1);
}

#[test]
fn deliveries_survive_resubscription() {
    let mut map = posix_map();
    let channel = Channel::new(SignalType::Ctrlc, &mut map).unwrap();
    map.deliver(CTRL_C_SIGNAL);
    channel.release(&mut map);
    // The pipe keeps its bytes across subscribe/unsubscribe churn.
    let channel2 = Channel::new(SignalType::Ctrlc, &mut map).unwrap();
    assert_eq!(channel2.try_recv(&mut map).unwrap(), SignalType::Ctrlc);
}

#[test]
fn wire_format_is_little_endian() {
    let mut map = SignalMap::new(vec![CTRL_C_SIGNAL, 258]);
    let channel = Channel::new_with_multiple()
        .add_signal(SignalType::Ctrlc)
        .add_signal(SignalType::Other(258))
        .build(&mut map)
        .unwrap();
    map.deliver(CTRL_C_SIGNAL);
    map.deliver(258);
    // Each delivery queues the four-byte little-endian native identifier.
    assert_eq!(map.pending[0], vec![2, 0, 0, 0]);
    assert_eq!(map.pending[1], vec![2, 1, 0, 0]);
    // ... and the identifier round-trips to the logical signal subscribed.
    assert_eq!(channel.recv(&mut map).unwrap(), SignalType::Ctrlc);
    assert_eq!(channel.recv(&mut map).unwrap(), SignalType::Other(258));
}
