//! Cross-platform handling of Ctrl-C and other OS signals, modelled as a
//! verified signal registry.
//!
//! The heart of the library is [`SignalMap`](signalmap::SignalMap): a fixed
//! table with one row per representable native signal, each row holding a
//! monotonic hit counter, a lazily created emitter and an `installed` flag
//! that enforces at most one live subscriber per signal. An OS interrupt is
//! modelled by [`SignalMap::deliver`](signalmap::SignalMap::deliver), which
//! is what the thin native handler calls; everything downstream of that call
//! is verified. Two typed views sit on top of the registry:
//! [`Counter`](counter::Counter), a single-signal hit counter, and
//! [`Channel`](channel::Channel), a multi-signal receiver.

mod channel;
mod counter;
mod emitter;
mod error;
mod signal;
mod signalmap;

pub use channel::{Channel, ChannelBuilder, UnixChannel};
pub use counter::Counter;
pub use error::Error;
pub use signal::{Signal, SignalType, CTRL_C_SIGNAL, TERMINATION_SIGNAL};
pub use signalmap::{EmitterState, SignalMap};

use vstd::prelude::*;

verus! {

/// The process-wide "exactly one global handler" slot: `set_handler` and its
/// variants go through it, and only the first installation ever succeeds.
/// The dispatch thread that runs the user callback lives outside the
/// registry; this slot holds the decision state it is driven by.
#[derive(Debug)]
pub struct HandlerState {
    init: bool,
}

impl HandlerState {
    /// Whether a global handler has been installed.
    pub closed spec fn is_init(self) -> bool {
        self.init
    }

    /// The slot of a process in which no global handler was installed yet.
    pub fn new() -> (r: HandlerState)
        ensures
            !r.is_init(),
    {
        HandlerState { init: false }
    }

    /// Consume one pending Ctrl-C delivery, the way one turn of the dispatch
    /// loop does before it invokes the user callback: the answer says
    /// whether the callback is to be invoked. Each delivery fires the
    /// callback exactly once.
    pub fn take_delivery(&self, map: &mut SignalMap) -> (r: bool)
        requires
            old(map).wf(),
        ensures
            final(map).wf(),
            final(map).signals@ == old(map).signals@,
            final(map).counters@ == old(map).counters@,
            final(map).emitters@ == old(map).emitters@,
            final(map).installed@ == old(map).installed@,
            r == (signalmap::first_match_idx(old(map).pending_view(), seq![CTRL_C_SIGNAL])
                is Some),
            r ==> (signalmap::first_match_idx(old(map).pending_view(), seq![CTRL_C_SIGNAL])
                matches Some(i) && final(map).pending_view() == old(map).pending_view().remove(
                i,
            )),
            !r ==> final(map).pending_view() == old(map).pending_view(),
    {
        let mut subs: Vec<Signal> = Vec::new();
        subs.push(CTRL_C_SIGNAL);
        proof {
            assert(subs@ =~= seq![CTRL_C_SIGNAL]);
        }
        match map.take_pending(&subs) {
            Some(_) => true,
            None => false,
        }
    }
}

/// Register the global handler for Ctrl-C: claim the Ctrl-C row — taking it
/// over from any earlier per-signal subscriber — and create its emitter, so
/// that a dedicated dispatch thread can wait on it and run the user callback
/// once per delivery. Only the first global registration of the process
/// succeeds; every later one is refused with `MultipleHandlers`. A refusal
/// leaves slot and registry untouched.
pub fn set_handler(state: &mut HandlerState, map: &mut SignalMap) -> (r: Result<(), Error>)
    requires
        old(map).wf(),
    ensures
        final(map).wf(),
        final(map).signals@ == old(map).signals@,
        old(state).is_init() ==> r == Err::<(), Error>(Error::MultipleHandlers)
            && SignalMap::unchanged(*old(map), *final(map)) && *final(state) == *old(state),
        !old(state).is_init() && !old(map).contains_signal(CTRL_C_SIGNAL) ==> r == Err::<(), Error>(
            Error::NoSuchSignal(SignalType::Ctrlc),
        ) && SignalMap::unchanged(*old(map), *final(map)) && *final(state) == *old(state),
        !old(state).is_init() && old(map).contains_signal(CTRL_C_SIGNAL) ==> ({
            &&& r == Ok::<(), Error>(())
            &&& final(state).is_init()
            &&& final(map).counters@ == old(map).counters@
            &&& final(map).pending@ == old(map).pending@
            &&& final(map).installed@ == old(map).installed@.update(
                old(map).row_of(CTRL_C_SIGNAL),
                true,
            )
            &&& final(map).emitters@ == old(map).emitters@.update(
                old(map).row_of(CTRL_C_SIGNAL),
                EmitterState::Initialized,
            )
        }),
{
    install_global(state, map, true)
}

/// The same as `set_handler`, but also refused — with `MultipleHandlers` —
/// when any subscriber already holds the Ctrl-C row, instead of taking the
/// row over.
pub fn try_set_handler(state: &mut HandlerState, map: &mut SignalMap) -> (r: Result<(), Error>)
    requires
        old(map).wf(),
    ensures
        final(map).wf(),
        final(map).signals@ == old(map).signals@,
        old(state).is_init() ==> r == Err::<(), Error>(Error::MultipleHandlers)
            && SignalMap::unchanged(*old(map), *final(map)) && *final(state) == *old(state),
        !old(state).is_init() && !old(map).contains_signal(CTRL_C_SIGNAL) ==> r == Err::<(), Error>(
            Error::NoSuchSignal(SignalType::Ctrlc),
        ) && SignalMap::unchanged(*old(map), *final(map)) && *final(state) == *old(state),
        !old(state).is_init() && old(map).contains_signal(CTRL_C_SIGNAL) && old(map).is_installed(
            CTRL_C_SIGNAL,
        ) ==> r == Err::<(), Error>(Error::MultipleHandlers) && SignalMap::unchanged(
            *old(map),
            *final(map),
        ) && *final(state) == *old(state),
        !old(state).is_init() && old(map).can_register(CTRL_C_SIGNAL) ==> ({
            &&& r == Ok::<(), Error>(())
            &&& final(state).is_init()
            &&& final(map).counters@ == old(map).counters@
            &&& final(map).pending@ == old(map).pending@
            &&& final(map).installed@ == old(map).installed@.update(
                old(map).row_of(CTRL_C_SIGNAL),
                true,
            )
            &&& final(map).emitters@ == old(map).emitters@.update(
                old(map).row_of(CTRL_C_SIGNAL),
                EmitterState::Initialized,
            )
        }),
{
    install_global(state, map, false)
}

/// The shared slow path of `set_handler` and `try_set_handler`: check the
/// process-wide slot, claim the Ctrl-C row through the registry, create its
/// emitter, and mark the slot taken.
fn install_global(state: &mut HandlerState, map: &mut SignalMap, overwrite: bool) -> (r: Result<
    (),
    Error,
>)
    requires
        old(map).wf(),
    ensures
        final(map).wf(),
        final(map).signals@ == old(map).signals@,
        old(state).is_init() ==> r == Err::<(), Error>(Error::MultipleHandlers)
            && SignalMap::unchanged(*old(map), *final(map)) && *final(state) == *old(state),
        !old(state).is_init() && !old(map).contains_signal(CTRL_C_SIGNAL) ==> r == Err::<(), Error>(
            Error::NoSuchSignal(SignalType::Ctrlc),
        ) && SignalMap::unchanged(*old(map), *final(map)) && *final(state) == *old(state),
        !old(state).is_init() && old(map).contains_signal(CTRL_C_SIGNAL) && !overwrite
            && old(map).is_installed(CTRL_C_SIGNAL) ==> r == Err::<(), Error>(
            Error::MultipleHandlers,
        ) && SignalMap::unchanged(*old(map), *final(map)) && *final(state) == *old(state),
        !old(state).is_init() && old(map).contains_signal(CTRL_C_SIGNAL) && (overwrite || !old(
            map,
        ).is_installed(CTRL_C_SIGNAL)) ==> r == Ok::<(), Error>(()) && final(state).is_init()
            && final(map).counters@ == old(map).counters@ && final(map).pending@ == old(
            map,
        ).pending@ && final(map).installed@ == old(map).installed@.update(
            old(map).row_of(CTRL_C_SIGNAL),
            true,
        ) && final(map).emitters@ == old(map).emitters@.update(
            old(map).row_of(CTRL_C_SIGNAL),
            EmitterState::Initialized,
        ),
{
    if state.init {
        return Err(Error::MultipleHandlers);
    }
    let ghost pre = *map;
    match map.try_install(CTRL_C_SIGNAL, overwrite) {
        Err(e) => Err(e),
        Ok(()) => {
            proof {
                pre.lemma_row_of_contained(CTRL_C_SIGNAL);
                map.lemma_row_of_unique(CTRL_C_SIGNAL, pre.row_of(CTRL_C_SIGNAL));
            }
            map.ensure_emitter(CTRL_C_SIGNAL);
            state.init = true;
            Ok(())
        },
    }
}

} // verus!
