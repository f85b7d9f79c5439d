use vstd::prelude::*;

verus! {

/// Native platform identifier for an OS signal, as the kernel reports it
/// (for example `SIGINT` or `SIGTERM` on a POSIX system).
pub type Signal = i32;

/// The native signal delivered for a console interrupt (`SIGINT`).
pub const CTRL_C_SIGNAL: Signal = 2;

/// The native signal delivered for a program termination request (`SIGTERM`).
pub const TERMINATION_SIGNAL: Signal = 15;

/// A cross-platform way to represent a Ctrl-C or program termination signal.
/// Other signals are supported via the `Other` variant, which carries the
/// native signal identifier unchanged.
#[derive(Clone, Copy, Debug, PartialEq, Eq, Structural)]
pub enum SignalType {
    /// Console interrupt (Ctrl-C). Maps to `SIGINT`.
    Ctrlc,
    /// Program termination request. Maps to `SIGTERM`.
    Termination,
    /// Any other signal, named by its native identifier.
    Other(Signal),
}

impl SignalType {
    /// The native signal a logical signal stands for. Total: every logical
    /// signal has exactly one native identifier.
    pub open spec fn spec_to_platform(self) -> Signal {
        match self {
            SignalType::Ctrlc => CTRL_C_SIGNAL,
            SignalType::Termination => TERMINATION_SIGNAL,
            SignalType::Other(s) => s,
        }
    }

    /// Get the underlying platform-specific signal.
    pub fn to_platform_signal(&self) -> (r: Signal)
        ensures
            r == self.spec_to_platform(),
    {
        match *self {
            SignalType::Ctrlc => CTRL_C_SIGNAL,
            SignalType::Termination => TERMINATION_SIGNAL,
            SignalType::Other(s) => s,
        }
    }

    /// The logical signal a native identifier stands for. Total with
    /// fallback: unknown native values become `Other`.
    pub open spec fn spec_from_platform(s: Signal) -> SignalType {
        if s == CTRL_C_SIGNAL {
            SignalType::Ctrlc
        } else if s == TERMINATION_SIGNAL {
            SignalType::Termination
        } else {
            SignalType::Other(s)
        }
    }

    /// Build the logical signal that stands for a native identifier.
    pub fn from_platform_signal(s: Signal) -> (r: SignalType)
        ensures
            r == Self::spec_from_platform(s),
    {
        if s == CTRL_C_SIGNAL {
            SignalType::Ctrlc
        } else if s == TERMINATION_SIGNAL {
            SignalType::Termination
        } else {
            SignalType::Other(s)
        }
    }
}

/// Going from a native identifier to the logical signal and back to a native
/// identifier always returns the identifier one started from: the logical
/// view loses nothing of the native signal.
pub proof fn lemma_platform_round_trip(s: Signal)
    ensures
        SignalType::spec_from_platform(s).spec_to_platform() == s,
{
}

/// Going from a logical signal to its native identifier and back yields the
/// same logical signal, whenever the logical signal is the canonical name of
/// that identifier (an `Other` carrying the identifier of `Ctrlc` or
/// `Termination` folds onto the canonical variant instead).
pub proof fn lemma_logical_round_trip(t: SignalType)
    requires
        t matches SignalType::Other(s) ==> s != CTRL_C_SIGNAL && s != TERMINATION_SIGNAL,
    ensures
        SignalType::spec_from_platform(t.spec_to_platform()) == t,
{
}

} // verus!
