use vstd::prelude::*;
use crate::signal::SignalType;

verus! {

/// Everything that can go wrong when subscribing to a signal or receiving
/// one.
#[derive(Clone, Copy, Debug, PartialEq, Eq, Structural)]
pub enum Error {
    /// A non-blocking receive found no pending signal.
    ChannelEmpty,
    /// The requested signal is not representable on this system. Carries the
    /// requested logical signal unchanged.
    NoSuchSignal(SignalType),
    /// A subscriber (handler, counter or channel) is already registered for
    /// the signal.
    MultipleHandlers,
    /// More signals requested for one channel than a multi-object wait can
    /// multiplex.
    TooManySignals,
    /// An underlying OS error, carried as its raw OS error code.
    System(i32),
}

impl Error {
    /// A short, fixed description of the error.
    pub fn describe(&self) -> (r: &'static str)
        ensures
            r@ == match *self {
                Error::ChannelEmpty => "Channel is empty"@,
                Error::NoSuchSignal(_) => "Signal could not be found from the system"@,
                Error::MultipleHandlers => "Ctrl-C signal handler already registered"@,
                Error::TooManySignals => "Too many signals registered for a channel"@,
                Error::System(_) => "Unexpected system error"@,
            },
    {
        match *self {
            Error::ChannelEmpty => "Channel is empty",
            Error::NoSuchSignal(_) => "Signal could not be found from the system",
            Error::MultipleHandlers => "Ctrl-C signal handler already registered",
            Error::TooManySignals => "Too many signals registered for a channel",
            Error::System(_) => "Unexpected system error",
        }
    }
}

} // verus!
