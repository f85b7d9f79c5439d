use vstd::prelude::*;
use crate::error::Error;
use crate::signal::{Signal, SignalType};
use crate::signalmap::SignalMap;

verus! {

/// A single-signal hit counter: owns one signal subscription and exposes the
/// lock-free running count of deliveries. At most one live subscriber may
/// hold a signal at a time, so a second `Counter` for the same signal is
/// refused while the first lives.
#[derive(Debug)]
pub struct Counter {
    signal: Signal,
}

impl Counter {
    /// The native signal this counter subscribed to.
    pub closed spec fn spec_signal(self) -> Signal {
        self.signal
    }

    /// Create a counter for the given signal, claiming the signal's registry
    /// row. Refused with `NoSuchSignal` — carrying the requested signal
    /// unchanged — when the signal is not representable, and with
    /// `MultipleHandlers` when another subscriber already holds the row; a
    /// refusal leaves the registry untouched.
    pub fn new(signal: SignalType, map: &mut SignalMap) -> (r: Result<Counter, Error>)
        requires
            old(map).wf(),
        ensures
            final(map).wf(),
            final(map).signals@ == old(map).signals@,
            !old(map).contains_signal(signal.spec_to_platform()) ==> r == Err::<Counter, Error>(
                Error::NoSuchSignal(signal),
            ) && SignalMap::unchanged(*old(map), *final(map)),
            old(map).contains_signal(signal.spec_to_platform()) && old(map).is_installed(
                signal.spec_to_platform(),
            ) ==> r == Err::<Counter, Error>(Error::MultipleHandlers) && SignalMap::unchanged(
                *old(map),
                *final(map),
            ),
            old(map).can_register(signal.spec_to_platform()) ==> {
                &&& r matches Ok(c) && c.spec_signal() == signal.spec_to_platform()
                &&& SignalMap::install_transition(*old(map), *final(map), signal.spec_to_platform())
                &&& final(map).is_installed(signal.spec_to_platform())
            },
    {
        let platform_signal = signal.to_platform_signal();
        if map.index_of(platform_signal).is_none() {
            return Err(Error::NoSuchSignal(signal));
        }
        match map.try_install(platform_signal, false) {
            Ok(()) => {
                proof {
                    map.lemma_row_of_unique(platform_signal, old(map).row_of(platform_signal));
                }
                Ok(Counter { signal: platform_signal })
            },
            Err(e) => Err(e),
        }
    }

    /// The running count of deliveries of the subscribed signal: a snapshot
    /// of the row's monotonic hit counter.
    pub fn get(&self, map: &SignalMap) -> (r: usize)
        requires
            map.wf(),
            map.contains_signal(self.spec_signal()),
        ensures
            r == map.counter_at(self.spec_signal()),
    {
        match map.get_counter(self.signal) {
            Some(c) => c,
            None => 0,
        }
    }

    /// Give the subscription up: the signal's registry row is released and
    /// takes a new subscriber again. The hit counter keeps its value — it is
    /// monotonic for the life of the registry, independent of
    /// subscribe/unsubscribe churn.
    pub fn release(self, map: &mut SignalMap)
        requires
            old(map).wf(),
        ensures
            final(map).wf(),
            final(map).signals@ == old(map).signals@,
            old(map).contains_signal(self.spec_signal()) ==> SignalMap::uninstall_transition(
                *old(map),
                *final(map),
                self.spec_signal(),
            ),
            !old(map).contains_signal(self.spec_signal()) ==> SignalMap::unchanged(
                *old(map),
                *final(map),
            ),
    {
        map.uninstall(self.signal);
    }
}

} // verus!
