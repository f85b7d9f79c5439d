use vstd::prelude::*;
use crate::emitter::{decode_signal_id, encode_signal_id, decoding_of, encoding_of};
use crate::error::Error;
use crate::signal::{Signal, SignalType};

verus! {

/// The interrupt-safe notification resource of a registry row: a pipe pair
/// on Unix, a counting semaphore on Windows.
#[derive(Clone, Copy, Debug, PartialEq, Eq, Structural)]
pub enum EmitterState {
    /// No subscriber has needed the resource yet.
    Uninitialized,
    /// The resource exists. It is created at most once per row for the life
    /// of the process and reused by later subscribe/unsubscribe cycles.
    Initialized,
}

/// A counter value one past `c`, stopping at the top of `usize`: a hit
/// counter never decreases and never wraps.
pub open spec fn sat_inc(c: usize) -> usize {
    if c < usize::MAX {
        (c + 1) as usize
    } else {
        c
    }
}

/// Whether a queued record announces a signal of the subscribed set.
pub open spec fn record_matches(entry: Seq<u8>, subs: Seq<Signal>) -> bool {
    subs.contains(decoding_of(entry))
}

/// The position of the oldest queued record announcing a subscribed signal,
/// if any record does.
pub open spec fn first_match_idx(p: Seq<Seq<u8>>, subs: Seq<Signal>) -> Option<int>
    decreases p.len(),
{
    if p.len() == 0 {
        None
    } else if record_matches(p[0], subs) {
        Some(0)
    } else {
        match first_match_idx(p.drop_first(), subs) {
            Some(i) => Some(i + 1),
            None => None,
        }
    }
}

/// A position that holds a matching record, with no match before it, is the
/// first match.
pub(crate) proof fn lemma_first_match_at(p: Seq<Seq<u8>>, subs: Seq<Signal>, i: int)
    requires
        0 <= i < p.len(),
        record_matches(p[i], subs),
        forall|j: int| 0 <= j < i ==> !record_matches(#[trigger] p[j], subs),
    ensures
        first_match_idx(p, subs) == Some(i),
    decreases i,
{
    if i == 0 {
    } else {
        assert(!record_matches(p[0], subs));
        let q = p.drop_first();
        assert(q[i - 1] == p[i]);
        assert(forall|j: int| 0 <= j < i - 1 ==> #[trigger] q[j] == p[j + 1]);
        lemma_first_match_at(q, subs, i - 1);
    }
}

/// A queue without a matching record has no first match.
pub(crate) proof fn lemma_first_match_none(p: Seq<Seq<u8>>, subs: Seq<Signal>)
    requires
        forall|j: int| 0 <= j < p.len() ==> !record_matches(#[trigger] p[j], subs),
    ensures
        first_match_idx(p, subs) is None,
    decreases p.len(),
{
    if p.len() > 0 {
        let q = p.drop_first();
        assert(forall|j: int| 0 <= j < q.len() ==> #[trigger] q[j] == p[j + 1]);
        lemma_first_match_none(q, subs);
    }
}

/// A queue without a first match has no matching record anywhere.
pub(crate) proof fn lemma_no_first_match(p: Seq<Seq<u8>>, subs: Seq<Signal>)
    requires
        first_match_idx(p, subs) is None,
    ensures
        forall|j: int| 0 <= j < p.len() ==> !record_matches(#[trigger] p[j], subs),
    decreases p.len(),
{
    if p.len() > 0 {
        assert(!record_matches(p[0], subs));
        let q = p.drop_first();
        lemma_no_first_match(q, subs);
        assert forall|j: int| 0 <= j < p.len() implies !record_matches(#[trigger] p[j], subs) by {
            if j > 0 {
                assert(q[j - 1] == p[j]);
            }
        }
    }
}

/// Whether a sequence of signals names the given signal.
pub(crate) fn signals_contain(v: &Vec<Signal>, s: Signal) -> (r: bool)
    ensures
        r == v@.contains(s),
{
    let n = v.len();
    let mut k: usize = 0;
    while k < n
        invariant
            k <= n,
            n == v@.len(),
            forall|j: int| 0 <= j < k ==> v@[j] != s,
        decreases n - k,
    {
        if v[k] == s {
            return true;
        }
        k = k + 1;
    }
    false
}

/// The process-wide signal registry: a fixed table with one row per
/// representable native signal. Each row holds a monotonic hit counter, a
/// lazily created emitter and an `installed` flag that enforces at most one
/// live subscriber per signal. Deliveries queue the four-byte encoding of
/// the delivered signal, oldest first, the way bytes queue in a self-pipe.
#[derive(Debug)]
pub struct SignalMap {
    /// The representable native signals, one row each.
    pub signals: Vec<Signal>,
    /// Per row, how often the signal was delivered while a subscriber held
    /// the row. Monotonic for the life of the registry.
    pub counters: Vec<usize>,
    /// Per row, the state of the emitter resource.
    pub emitters: Vec<EmitterState>,
    /// Per row, whether a live subscriber owns the row's native handler.
    pub installed: Vec<bool>,
    /// The four-byte records emitted and not yet received, oldest first.
    pub pending: Vec<Vec<u8>>,
}

impl SignalMap {
    /// The table is well formed: one counter, emitter and flag per signal,
    /// no signal twice, and every pending record is exactly four bytes.
    pub open spec fn wf(self) -> bool {
        &&& self.counters@.len() == self.signals@.len()
        &&& self.emitters@.len() == self.signals@.len()
        &&& self.installed@.len() == self.signals@.len()
        &&& self.signals@.no_duplicates()
        &&& forall|k: int| 0 <= k < self.pending@.len() ==> (#[trigger] self.pending@[k])@.len() == 4
    }

    /// Whether the table has a row for the native signal.
    pub open spec fn contains_signal(self, s: Signal) -> bool {
        self.signals@.contains(s)
    }

    /// The queued four-byte records, as byte sequences, oldest first.
    pub open spec fn pending_view(self) -> Seq<Seq<u8>> {
        self.pending@.map_values(|v: Vec<u8>| v@)
    }

    /// The row of the native signal; meaningful only when the table
    /// contains it.
    pub open spec fn row_of(self, s: Signal) -> int {
        choose|i: int| 0 <= i < self.signals@.len() && self.signals@[i] == s
    }

    /// The hit counter of the signal's row.
    pub open spec fn counter_at(self, s: Signal) -> usize {
        self.counters@[self.row_of(s)]
    }

    /// The emitter state of the signal's row.
    pub open spec fn emitter_at(self, s: Signal) -> EmitterState {
        self.emitters@[self.row_of(s)]
    }

    /// Whether a live subscriber owns the signal's row.
    pub open spec fn is_installed(self, s: Signal) -> bool {
        self.installed@[self.row_of(s)]
    }

    /// Whether a subscription that refuses to overwrite may claim the row:
    /// the signal is representable and nobody holds it.
    pub open spec fn can_register(self, s: Signal) -> bool {
        self.contains_signal(s) && !self.is_installed(s)
    }

    /// In a well-formed table any row holding `s` is the row of `s`.
    pub proof fn lemma_row_of_unique(self, s: Signal, j: int)
        requires
            self.wf(),
            0 <= j < self.signals@.len(),
            self.signals@[j] == s,
        ensures
            self.row_of(s) == j,
            self.contains_signal(s),
    {
        assert(self.contains_signal(s));
        let i = self.row_of(s);
        assert(0 <= i < self.signals@.len() && self.signals@[i] == s);
        if i != j {
            assert(false);
        }
    }

    /// In a well-formed table the row of a contained signal holds it.
    pub proof fn lemma_row_of_contained(self, s: Signal)
        requires
            self.wf(),
            self.contains_signal(s),
        ensures
            0 <= self.row_of(s) < self.signals@.len(),
            self.signals@[self.row_of(s)] == s,
    {
        let w = choose|i: int| 0 <= i < self.signals@.len() && self.signals@[i] == s;
        assert(0 <= w < self.signals@.len() && self.signals@[w] == s);
    }

    /// Every signal of the set has a valid row in the table: its row index
    /// is in range and that row holds it.
    pub open spec fn rows_valid(self, sigs: Seq<Signal>) -> bool {
        forall|i: int|
            0 <= i < sigs.len() ==> 0 <= self.row_of(#[trigger] sigs[i]) < self.signals@.len()
                && self.signals@[self.row_of(sigs[i])] == sigs[i]
    }

    /// The two tables hold the same state.
    pub open spec fn unchanged(pre: SignalMap, post: SignalMap) -> bool {
        &&& post.signals@ == pre.signals@
        &&& post.counters@ == pre.counters@
        &&& post.emitters@ == pre.emitters@
        &&& post.installed@ == pre.installed@
        &&& post.pending@ == pre.pending@
    }

    /// Installing a handler for `s` claims the row of `s` and touches
    /// nothing else: no counter, no emitter, no pending record.
    pub open spec fn install_transition(pre: SignalMap, post: SignalMap, s: Signal) -> bool {
        &&& post.signals@ == pre.signals@
        &&& post.counters@ == pre.counters@
        &&& post.emitters@ == pre.emitters@
        &&& post.installed@ == pre.installed@.update(pre.row_of(s), true)
        &&& post.pending@ == pre.pending@
    }

    /// Uninstalling releases the row of `s` and touches nothing else: the
    /// hit counter keeps its value and pending records stay queued.
    pub open spec fn uninstall_transition(pre: SignalMap, post: SignalMap, s: Signal) -> bool {
        &&& post.signals@ == pre.signals@
        &&& post.counters@ == pre.counters@
        &&& post.emitters@ == pre.emitters@
        &&& post.installed@ == pre.installed@.update(pre.row_of(s), false)
        &&& post.pending@ == pre.pending@
    }

    /// A delivery of `s` to a held row bumps the row's counter and, if the
    /// row's emitter exists, queues the four-byte encoding of `s`; a
    /// delivery to an absent or unheld row does nothing.
    pub open spec fn deliver_transition(pre: SignalMap, post: SignalMap, s: Signal) -> bool {
        if pre.contains_signal(s) && pre.is_installed(s) {
            &&& post.signals@ == pre.signals@
            &&& post.counters@ == pre.counters@.update(
                pre.row_of(s),
                sat_inc(pre.counters@[pre.row_of(s)]),
            )
            &&& post.emitters@ == pre.emitters@
            &&& post.installed@ == pre.installed@
            &&& post.pending_view() == if pre.emitter_at(s) == EmitterState::Initialized {
                pre.pending_view().push(encoding_of(s))
            } else {
                pre.pending_view()
            }
        } else {
            Self::unchanged(pre, post)
        }
    }

    /// Build the registry over the given set of representable signals, every
    /// row unclaimed, every counter zero, every emitter uncreated.
    pub fn new(signals: Vec<Signal>) -> (r: SignalMap)
        requires
            signals@.no_duplicates(),
        ensures
            r.wf(),
            r.signals@ == signals@,
            forall|i: int| 0 <= i < r.counters@.len() ==> r.counters@[i] == 0,
            forall|i: int|
                0 <= i < r.emitters@.len() ==> r.emitters@[i] == EmitterState::Uninitialized,
            forall|i: int| 0 <= i < r.installed@.len() ==> r.installed@[i] == false,
            r.pending@.len() == 0,
    {
        let n = signals.len();
        let mut counters: Vec<usize> = Vec::new();
        let mut emitters: Vec<EmitterState> = Vec::new();
        let mut installed: Vec<bool> = Vec::new();
        let mut k: usize = 0;
        while k < n
            invariant
                k <= n,
                counters@.len() == k as int,
                emitters@.len() == k as int,
                installed@.len() == k as int,
                forall|i: int| 0 <= i < k ==> counters@[i] == 0,
                forall|i: int| 0 <= i < k ==> emitters@[i] == EmitterState::Uninitialized,
                forall|i: int| 0 <= i < k ==> installed@[i] == false,
            decreases n - k,
        {
            counters.push(0);
            emitters.push(EmitterState::Uninitialized);
            installed.push(false);
            k = k + 1;
        }
        SignalMap { signals, counters, emitters, installed, pending: Vec::new() }
    }

    /// The row index of the native signal, if the table has one.
    pub fn index_of(&self, signal: Signal) -> (r: Option<usize>)
        requires
            self.wf(),
        ensures
            match r {
                Some(i) => self.contains_signal(signal) && i as int == self.row_of(signal)
                    && i < self.signals@.len(),
                None => !self.contains_signal(signal),
            },
    {
        let n = self.signals.len();
        let mut k: usize = 0;
        while k < n
            invariant
                self.wf(),
                k <= n,
                n == self.signals@.len(),
                forall|j: int| 0 <= j < k ==> self.signals@[j] != signal,
            decreases n - k,
        {
            if self.signals[k] == signal {
                proof {
                    self.lemma_row_of_unique(signal, k as int);
                }
                return Some(k);
            }
            k = k + 1;
        }
        None
    }

    /// The hit counter of the signal, if the table has a row for it.
    pub fn get_counter(&self, signal: Signal) -> (r: Option<usize>)
        requires
            self.wf(),
        ensures
            match r {
                Some(c) => self.contains_signal(signal) && c == self.counter_at(signal),
                None => !self.contains_signal(signal),
            },
    {
        match self.index_of(signal) {
            Some(i) => Some(self.counters[i]),
            None => None,
        }
    }

    /// The emitter state of the signal, if the table has a row for it.
    pub fn get_emitter(&self, signal: Signal) -> (r: Option<EmitterState>)
        requires
            self.wf(),
        ensures
            match r {
                Some(e) => self.contains_signal(signal) && e == self.emitter_at(signal),
                None => !self.contains_signal(signal),
            },
    {
        match self.index_of(signal) {
            Some(i) => Some(self.emitters[i]),
            None => None,
        }
    }

    /// Create the signal's emitter resource if no subscription has created
    /// it yet; a later call finds it and changes nothing.
    pub fn ensure_emitter(&mut self, signal: Signal)
        requires
            old(self).wf(),
            old(self).contains_signal(signal),
        ensures
            final(self).wf(),
            final(self).signals@ == old(self).signals@,
            final(self).counters@ == old(self).counters@,
            final(self).installed@ == old(self).installed@,
            final(self).pending@ == old(self).pending@,
            final(self).emitters@ == old(self).emitters@.update(
                old(self).row_of(signal),
                EmitterState::Initialized,
            ),
            final(self).emitter_at(signal) == EmitterState::Initialized,
    {
        proof {
            self.lemma_row_of_contained(signal);
        }
        let i = self.index_of(signal).unwrap();
        self.emitters[i] = EmitterState::Initialized;
        proof {
            self.lemma_row_of_unique(signal, i as int);
        }
    }

    /// Claim the signal's row for a new subscriber. With `overwrite` false
    /// the claim is refused when another subscriber holds the row; with
    /// `overwrite` true an existing claim is taken over. A signal without a
    /// row is refused as not representable. A refused claim leaves the
    /// table untouched.
    pub fn try_install(&mut self, signal: Signal, overwrite: bool) -> (r: Result<(), Error>)
        requires
            old(self).wf(),
        ensures
            final(self).wf(),
            !old(self).contains_signal(signal) ==> r == Err::<(), Error>(
                Error::NoSuchSignal(SignalType::spec_from_platform(signal)),
            ) && Self::unchanged(*old(self), *final(self)),
            old(self).contains_signal(signal) && !overwrite && old(self).is_installed(signal)
                ==> r == Err::<(), Error>(Error::MultipleHandlers)
                && Self::unchanged(*old(self), *final(self)),
            old(self).contains_signal(signal) && (overwrite || !old(self).is_installed(signal))
                ==> r == Ok::<(), Error>(())
                && Self::install_transition(*old(self), *final(self), signal),
            final(self).signals@ == old(self).signals@,
    {
        match self.index_of(signal) {
            None => Err(Error::NoSuchSignal(SignalType::from_platform_signal(signal))),
            Some(i) => {
                if !overwrite && self.installed[i] {
                    Err(Error::MultipleHandlers)
                } else {
                    self.installed[i] = true;
                    Ok(())
                }
            },
        }
    }

    /// Release the signal's row: the native disposition goes back to the OS
    /// default and the row takes a new subscriber again. Best effort — a
    /// signal without a row is ignored. The hit counter keeps its value and
    /// already emitted records stay queued.
    pub fn uninstall(&mut self, signal: Signal)
        requires
            old(self).wf(),
        ensures
            final(self).wf(),
            old(self).contains_signal(signal) ==> Self::uninstall_transition(
                *old(self),
                *final(self),
                signal,
            ),
            !old(self).contains_signal(signal) ==> Self::unchanged(*old(self), *final(self)),
            final(self).signals@ == old(self).signals@,
    {
        match self.index_of(signal) {
            None => (),
            Some(i) => {
                self.installed[i] = false;
            },
        }
    }

    /// Take the oldest queued record announcing one of the subscribed
    /// signals out of the queue and say which signal it announced. Records
    /// of other signals stay queued, in order: they belong to other
    /// subscribers.
    pub fn take_pending(&mut self, subs: &Vec<Signal>) -> (r: Option<Signal>)
        requires
            old(self).wf(),
        ensures
            final(self).wf(),
            final(self).signals@ == old(self).signals@,
            final(self).counters@ == old(self).counters@,
            final(self).emitters@ == old(self).emitters@,
            final(self).installed@ == old(self).installed@,
            match r {
                Some(sig) => {
                    &&& subs@.contains(sig)
                    &&& first_match_idx(old(self).pending_view(), subs@) matches Some(i)
                        && sig == decoding_of(old(self).pending_view()[i])
                        && final(self).pending_view() == old(self).pending_view().remove(i)
                },
                None => {
                    &&& first_match_idx(old(self).pending_view(), subs@) is None
                    &&& final(self).pending_view() == old(self).pending_view()
                },
            },
    {
        let n = self.pending.len();
        let mut k: usize = 0;
        while k < n
            invariant
                old(self).wf(),
                *self == *old(self),
                k <= n,
                n == self.pending@.len(),
                forall|j: int|
                    0 <= j < k ==> !record_matches(#[trigger] self.pending_view()[j], subs@),
            decreases n - k,
        {
            let sig = decode_signal_id(&self.pending[k]);
            if signals_contain(subs, sig) {
                proof {
                    lemma_first_match_at(self.pending_view(), subs@, k as int);
                }
                let _record = self.pending.remove(k);
                proof {
                    assert(self.pending_view() =~= old(self).pending_view().remove(k as int));
                }
                return Some(sig);
            }
            k = k + 1;
        }
        proof {
            lemma_first_match_none(self.pending_view(), subs@);
        }
        None
    }

    /// A delivery of the native signal, as the one fixed native handler
    /// performs it from interrupt context: look the row up; if a subscriber
    /// holds it, bump the hit counter, and queue the four-byte encoding of
    /// the signal if the row's emitter exists. Anything else is ignored —
    /// nothing actionable can be done from an interrupt.
    pub fn deliver(&mut self, signal: Signal)
        requires
            old(self).wf(),
        ensures
            final(self).wf(),
            Self::deliver_transition(*old(self), *final(self), signal),
            final(self).signals@ == old(self).signals@,
    {
        match self.index_of(signal) {
            None => (),
            Some(i) => {
                if self.installed[i] {
                    let c = self.counters[i];
                    let bumped: usize = if c < usize::MAX {
                        c + 1
                    } else {
                        c
                    };
                    self.counters[i] = bumped;
                    if self.emitters[i] == EmitterState::Initialized {
                        let record = encode_signal_id(signal);
                        self.pending.push(record);
                        proof {
                            assert(self.pending_view() =~= old(self).pending_view().push(
                                encoding_of(signal),
                            ));
                        }
                    }
                }
            },
        }
    }
}

/// At most one live subscriber per native signal, over a full
/// subscribe/unsubscribe cycle: once a signal that was free to register is
/// claimed, a second registration of the same signal is refused — exactly
/// the situation in which `try_install` answers `MultipleHandlers` — and
/// only after the first subscriber releases the row does a new registration
/// succeed. The hit counter is untouched by the whole cycle: it is monotonic
/// for the life of the registry, independent of subscription churn.
pub proof fn lemma_at_most_one_subscriber(m0: SignalMap, m1: SignalMap, m2: SignalMap, s: Signal)
    requires
        m0.wf(),
        m0.can_register(s),
        SignalMap::install_transition(m0, m1, s),
        SignalMap::uninstall_transition(m1, m2, s),
    ensures
        m1.contains_signal(s) && m1.is_installed(s),
        !m1.can_register(s),
        m2.can_register(s),
        m1.counter_at(s) == m0.counter_at(s),
        m2.counter_at(s) == m0.counter_at(s),
{
    m0.lemma_row_of_contained(s);
    let row = m0.row_of(s);
    assert(m1.wf());
    m1.lemma_row_of_unique(s, row);
    assert(m2.wf());
    m2.lemma_row_of_unique(s, row);
}

/// A delivery leaves the table well formed and touches no row structure:
/// any signal the table had keeps its row, its subscriber flag and its
/// emitter state.
pub proof fn lemma_deliver_preserves(pre: SignalMap, post: SignalMap, t: Signal, s: Signal)
    requires
        pre.wf(),
        pre.contains_signal(s),
        SignalMap::deliver_transition(pre, post, t),
    ensures
        post.wf(),
        post.signals@ == pre.signals@,
        post.contains_signal(s),
        post.row_of(s) == pre.row_of(s),
        post.is_installed(s) == pre.is_installed(s),
        post.emitter_at(s) == pre.emitter_at(s),
{
    pre.lemma_row_of_contained(s);
    let row = pre.row_of(s);
    assert(post.wf()) by {
        if pre.contains_signal(t) && pre.is_installed(t) {
            assert(encoding_of(t).len() == 4);
            assert(forall|k: int|
                0 <= k < post.pending@.len() ==> (#[trigger] post.pending@[k])@.len() == 4) by {
                assert(forall|k: int|
                    0 <= k < post.pending_view().len() ==> post.pending_view()[k]
                        == (#[trigger] post.pending@[k])@);
            }
        }
    }
    post.lemma_row_of_unique(s, row);
}

/// A delivery never decreases any hit counter: the delivered signal's
/// counter grows (until the top of `usize`), every other counter keeps its
/// value exactly.
pub proof fn lemma_counter_monotonic(pre: SignalMap, post: SignalMap, s: Signal, t: Signal)
    requires
        pre.wf(),
        pre.contains_signal(s),
        SignalMap::deliver_transition(pre, post, t),
    ensures
        post.counter_at(s) >= pre.counter_at(s),
        s != t ==> post.counter_at(s) == pre.counter_at(s),
{
    pre.lemma_row_of_contained(s);
    let row = pre.row_of(s);
    assert(post.wf()) by {
        if pre.contains_signal(t) && pre.is_installed(t) {
            assert(encoding_of(t).len() == 4);
            assert(forall|k: int|
                0 <= k < post.pending@.len() ==> (#[trigger] post.pending@[k])@.len() == 4) by {
                assert(forall|k: int|
                    0 <= k < post.pending_view().len() ==> post.pending_view()[k]
                        == (#[trigger] post.pending@[k])@);
            }
        }
    }
    post.lemma_row_of_unique(s, row);
    if pre.contains_signal(t) && pre.is_installed(t) {
        pre.lemma_row_of_contained(t);
        if s != t {
            assert(pre.row_of(t) != row) by {
                if pre.row_of(t) == row {
                    assert(pre.signals@[row] == t);
                    assert(pre.signals@[row] == s);
                }
            }
        }
    }
}

/// Delivering a signal N times while its row is held raises the row's hit
/// counter by exactly N, as long as the counter stays within `usize`. The
/// states walk through the registry one delivery at a time; the row stays
/// held and the table well formed throughout.
pub proof fn lemma_deliveries_accumulate(states: Seq<SignalMap>, s: Signal)
    requires
        states.len() >= 1,
        states[0].wf(),
        states[0].contains_signal(s),
        states[0].is_installed(s),
        states[0].counter_at(s) + states.len() - 1 <= usize::MAX,
        forall|i: int|
            0 <= i < states.len() - 1 ==> SignalMap::deliver_transition(
                #[trigger] states[i],
                states[i + 1],
                s,
            ),
    ensures
        states.last().wf(),
        states.last().contains_signal(s),
        states.last().is_installed(s),
        states.last().counter_at(s) == states[0].counter_at(s) + states.len() - 1,
    decreases states.len(),
{
    if states.len() == 1 {
    } else {
        let m0 = states[0];
        let m1 = states[1];
        assert(SignalMap::deliver_transition(m0, m1, s));
        m0.lemma_row_of_contained(s);
        let row = m0.row_of(s);
        assert(m1.wf()) by {
            assert(encoding_of(s).len() == 4);
            assert(forall|k: int|
                0 <= k < m1.pending@.len() ==> (#[trigger] m1.pending@[k])@.len() == 4) by {
                assert(forall|k: int|
                    0 <= k < m1.pending_view().len() ==> m1.pending_view()[k]
                        == (#[trigger] m1.pending@[k])@);
            }
        }
        m1.lemma_row_of_unique(s, row);
        assert(m1.counter_at(s) == m0.counter_at(s) + 1);
        let rest = states.drop_first();
        assert(forall|i: int| 0 <= i < rest.len() ==> #[trigger] rest[i] == states[i + 1]);
        assert forall|i: int| 0 <= i < rest.len() - 1 implies SignalMap::deliver_transition(
            #[trigger] rest[i],
            rest[i + 1],
            s,
        ) by {
            assert(SignalMap::deliver_transition(states[i + 1], states[i + 2], s));
        }
        lemma_deliveries_accumulate(rest, s);
        assert(states.last() == rest.last());
    }
}

} // verus!
