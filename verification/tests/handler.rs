use ctrlc::{
    set_handler, try_set_handler, Counter, Error, HandlerState, SignalMap, SignalType,
    CTRL_C_SIGNAL,
};

/// The registry over the usual POSIX signal numbers, as a platform would
/// enumerate them.
fn handler_map() -> SignalMap {
    SignalMap::new(vec![1, 2, 3, 6, 10, 12, 13, 14, 15, 17, 18, 19, 20, 21, 22])
}

#[test]
fn handler_fires_once_per_delivery() {
    let mut map = handler_map();
    let mut state = HandlerState::new();
    set_handler(&mut state, &mut map).unwrap();
    map.deliver(CTRL_C_SIGNAL);
    // One delivery: the dispatch loop invokes the callback exactly once.
    assert!(state.take_delivery(&mut map));
    assert!(!state.take_delivery(&mut map));
}

#[test]
fn second_global_handler_is_refused() {
    let mut map = handler_map();
    let mut state = HandlerState::new();
    set_handler(&mut state, &mut map).unwrap();
    assert!(matches!(
        try_set_handler(&mut state, &mut map),
        Err(Error::MultipleHandlers)
    ));
    assert!(matches!(
        set_handler(&mut state, &mut map),
        Err(Error::MultipleHandlers)
    ));
}

#[test]
fn try_set_handler_respects_existing_subscriber() {
    let mut map = handler_map();
    let counter = Counter::new(SignalType::Ctrlc, &mut map).unwrap();
    let mut state = HandlerState::new();
    assert!(matches!(
        try_set_handler(&mut state, &mut map),
        Err(Error::MultipleHandlers)
    ));
    drop(counter);
}

#[test]
fn set_handler_takes_over_existing_subscriber() {
    let mut map = handler_map();
    let counter = Counter::new(SignalType::Ctrlc, &mut map).unwrap();
    let mut state = HandlerState::new();
    assert!(set_handler(&mut state, &mut map).is_ok());
    drop(counter);
}

#[test]
fn handler_needs_a_ctrl_c_row() {
    let mut map = SignalMap::new(vec![15]);
    let mut state = HandlerState::new();
    match set_handler(&mut state, &mut map) {
        Err(Error::NoSuchSignal(t)) => assert_eq!(t, SignalType::Ctrlc),
        ret => panic!("{:?}", ret),
    }
}

#[test]
fn handler_counts_hits_too() {
    let mut map = handler_map();
    let mut state = HandlerState::new();
    set_handler(&mut state, &mut map).unwrap();
    map.deliver(CTRL_C_SIGNAL);
    map.deliver(CTRL_C_SIGNAL);
    assert_eq!(map.get_counter(CTRL_C_SIGNAL), Some(2));
    assert!(state.take_delivery(&mut map));
    assert!(state.take_delivery(&mut map));
    assert!(!state.take_delivery(&mut map));
    // Consuming deliveries does not rewind the hit counter.
    assert_eq!(map.get_counter(CTRL_C_SIGNAL), Some(2));
}

#[test]
fn error_descriptions() {
    assert_eq!(Error::ChannelEmpty.describe(), "Channel is empty");
    assert_eq!(
        Error::NoSuchSignal(SignalType::Ctrlc).describe(),
        "Signal could not be found from the system"
    );
    assert_eq!(
        Error::MultipleHandlers.describe(),
        "Ctrl-C signal handler already registered"
    );
    assert_eq!(
        Error::TooManySignals.describe(),
        "Too many signals registered for a channel"
    );
    assert_eq!(Error::System(5).describe(), "Unexpected system error");
}

#[test]
fn error_equality() {
    assert_eq!(Error::ChannelEmpty, Error::ChannelEmpty);
    assert_eq!(
        Error::NoSuchSignal(SignalType::Other(5)),
        Error::NoSuchSignal(SignalType::Other(5))
    );
    assert_ne!(
        Error::NoSuchSignal(SignalType::Other(5)),
        Error::NoSuchSignal(SignalType::Other(6))
    );
    assert_eq!(Error::System(3), Error::System(3));
    assert_ne!(Error::System(3), Error::System(4));
    assert_ne!(Error::ChannelEmpty, Error::MultipleHandlers);
}

#[test]
fn delivery_without_subscriber_is_ignored() {
    let mut map = handler_map();
    map.deliver(CTRL_C_SIGNAL);
    assert_eq!(map.get_counter(CTRL_C_SIGNAL), Some(0));
    let counter = Counter::new(SignalType::Ctrlc, &mut map).unwrap();
    assert_eq!(counter.get(&map), 0);
}

#[test]
fn registry_reports_unknown_signals() {
    let map = handler_map();
    assert_eq!(map.get_counter(12345), None);
    assert_eq!(map.index_of(12345), None);
    assert!(map.index_of(CTRL_C_SIGNAL).is_some());
}
