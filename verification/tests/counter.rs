use ctrlc::{Counter, Error, SignalMap, SignalType, CTRL_C_SIGNAL, TERMINATION_SIGNAL};

/// The registry over the usual POSIX signal numbers, as a platform would
/// enumerate them.
fn default_map() -> SignalMap {
    SignalMap::new(vec![1, 2, 3, 6, 10, 12, 13, 14, 15, 17, 18, 19, 20, 21, 22])
}

#[test]
fn signal_mapping_to_platform() {
    assert_eq!(SignalType::Ctrlc.to_platform_signal(), CTRL_C_SIGNAL);
    assert_eq!(SignalType::Termination.to_platform_signal(), TERMINATION_SIGNAL);
    assert_eq!(SignalType::Other(7).to_platform_signal(), 7);
}

#[test]
fn signal_mapping_from_platform() {
    assert_eq!(SignalType::from_platform_signal(CTRL_C_SIGNAL), SignalType::Ctrlc);
    assert_eq!(SignalType::from_platform_signal(TERMINATION_SIGNAL), SignalType::Termination);
    assert_eq!(SignalType::from_platform_signal(9), SignalType::Other(9));
}

#[test]
fn signal_mapping_round_trip() {
    for s in [1, 2, 9, 15, 31, 64, -5] {
        assert_eq!(SignalType::from_platform_signal(s).to_platform_signal(), s);
    }
}

#[test]
fn counter_counts_each_delivery() {
    let mut map = default_map();
    let counter = Counter::new(SignalType::Ctrlc, &mut map).unwrap();
    assert_eq!(counter.get(&map), 0);
    for _ in 0..5 {
        map.deliver(CTRL_C_SIGNAL);
    }
    assert_eq!(counter.get(&map), 5);
    map.deliver(CTRL_C_SIGNAL);
    assert_eq!(counter.get(&map), 6);
}

#[test]
fn counter_ignores_other_signals() {
    let mut map = default_map();
    let counter = Counter::new(SignalType::Ctrlc, &mut map).unwrap();
    map.deliver(TERMINATION_SIGNAL);
    map.deliver(9);
    assert_eq!(counter.get(&map), 0);
}

#[test]
fn counter_monotonic_across_resubscription() {
    let mut map = default_map();
    let counter = Counter::new(SignalType::Ctrlc, &mut map).unwrap();
    map.deliver(CTRL_C_SIGNAL);
    map.deliver(CTRL_C_SIGNAL);
    assert_eq!(counter.get(&map), 2);
    counter.release(&mut map);
    let counter2 = Counter::new(SignalType::Ctrlc, &mut map).unwrap();
    assert_eq!(counter2.get(&map), 2);
    map.deliver(CTRL_C_SIGNAL);
    assert_eq!(counter2.get(&map), 3);
}

#[test]
fn second_counter_for_same_signal_is_refused() {
    let mut map = default_map();
    let counter1 = Counter::new(SignalType::Ctrlc, &mut map);
    assert!(counter1.is_ok());
    let counter2 = Counter::new(SignalType::Ctrlc, &mut map);
    assert!(matches!(counter2, Err(Error::MultipleHandlers)));
    counter1.unwrap().release(&mut map);
    let counter3 = Counter::new(SignalType::Ctrlc, &mut map);
    assert!(counter3.is_ok());
}

#[test]
fn counters_for_different_signals_coexist() {
    let mut map = default_map();
    let a = Counter::new(SignalType::Ctrlc, &mut map).unwrap();
    let b = Counter::new(SignalType::Termination, &mut map).unwrap();
    map.deliver(CTRL_C_SIGNAL);
    map.deliver(TERMINATION_SIGNAL);
    map.deliver(TERMINATION_SIGNAL);
    assert_eq!(a.get(&map), 1);
    assert_eq!(b.get(&map), 2);
}

#[test]
fn invalid_counter_preserves_signal() {
    let mut map = default_map();
    match Counter::new(SignalType::Other(12345), &mut map) {
        Err(Error::NoSuchSignal(SignalType::Other(sig))) => assert_eq!(sig, 12345),
        ret => panic!("{:?}", ret),
    }
}

#[test]
fn counter_for_other_signal() {
    let mut map = default_map();
    let counter = Counter::new(SignalType::Other(10), &mut map).unwrap();
    map.deliver(10);
    assert_eq!(counter.get(&map), 1);
}
