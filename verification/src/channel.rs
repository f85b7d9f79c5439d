use vstd::prelude::*;
use crate::emitter::{decode_signal_id, decoding_of, encoding_of};
use crate::error::Error;
use crate::signal::{Signal, SignalType};
use crate::signalmap::{first_match_idx, EmitterState, SignalMap};

verus! {

/// Whether some queued record announces the given signal.
pub open spec fn signal_pending_in(p: Seq<Seq<u8>>, s: Signal) -> bool {
    exists|j: int| 0 <= j < p.len() && decoding_of(#[trigger] p[j]) == s
}

/// How many of the subscribed signals have at least one queued record: the
/// number of emitters a readiness wait would report as readable.
pub open spec fn ready_count(p: Seq<Seq<u8>>, subs: Seq<Signal>) -> int
    decreases subs.len(),
{
    if subs.len() == 0 {
        0
    } else {
        ready_count(p, subs.drop_last()) + if signal_pending_in(p, subs.last()) {
            1int
        } else {
            0int
        }
    }
}

/// Whether every signal of the set may be claimed at once by a subscriber
/// that refuses to overwrite: no signal twice, and no row already held.
pub open spec fn all_registrable(m: SignalMap, sigs: Seq<Signal>) -> bool {
    &&& sigs.no_duplicates()
    &&& forall|i: int| 0 <= i < sigs.len() ==> !m.is_installed(#[trigger] sigs[i])
}

/// The installed flags after the rows of the given signals are claimed, one
/// after the other.
pub open spec fn installed_after_claim(pre: SignalMap, sigs: Seq<Signal>) -> Seq<bool>
    decreases sigs.len(),
{
    if sigs.len() == 0 {
        pre.installed@
    } else {
        installed_after_claim(pre, sigs.drop_last()).update(pre.row_of(sigs.last()), true)
    }
}

/// The emitter states after the emitters of the given signals are created,
/// one after the other.
pub open spec fn emitters_after_claim(pre: SignalMap, sigs: Seq<Signal>) -> Seq<EmitterState>
    decreases sigs.len(),
{
    if sigs.len() == 0 {
        pre.emitters@
    } else {
        emitters_after_claim(pre, sigs.drop_last()).update(
            pre.row_of(sigs.last()),
            EmitterState::Initialized,
        )
    }
}

/// The installed flags after the rows of the given signals are released,
/// one after the other.
pub open spec fn installed_after_release(pre: SignalMap, sigs: Seq<Signal>) -> Seq<bool>
    decreases sigs.len(),
{
    if sigs.len() == 0 {
        pre.installed@
    } else {
        installed_after_release(pre, sigs.drop_last()).update(pre.row_of(sigs.last()), false)
    }
}

/// Claiming a set of signals at once claims exactly their rows, creates
/// exactly their emitters, and touches nothing else — no counter, no queued
/// record.
pub open spec fn group_install_transition(
    pre: SignalMap,
    post: SignalMap,
    sigs: Seq<Signal>,
) -> bool {
    &&& post.signals@ == pre.signals@
    &&& post.counters@ == pre.counters@
    &&& post.pending@ == pre.pending@
    &&& post.installed@ == installed_after_claim(pre, sigs)
    &&& post.emitters@ == emitters_after_claim(pre, sigs)
}

/// Releasing a set of signals at once releases exactly their rows and
/// touches nothing else: counters keep their values, emitters stay created,
/// queued records stay queued.
pub open spec fn group_release_transition(
    pre: SignalMap,
    post: SignalMap,
    sigs: Seq<Signal>,
) -> bool {
    &&& post.signals@ == pre.signals@
    &&& post.counters@ == pre.counters@
    &&& post.emitters@ == pre.emitters@
    &&& post.pending@ == pre.pending@
    &&& post.installed@ == installed_after_release(pre, sigs)
}

/// A sequence extended by one element contains exactly what it contained
/// before, and the new element.
proof fn lemma_contains_push<T>(p: Seq<T>, x: T, y: T)
    ensures
        p.push(x).contains(y) <==> (p.contains(y) || y == x),
{
    if p.contains(y) {
        let i = choose|i: int| 0 <= i < p.len() && p[i] == y;
        assert(p.push(x)[i] == y);
    }
    if y == x {
        assert(p.push(x)[p.len() as int] == y);
    }
    if p.push(x).contains(y) {
        let i = choose|i: int| 0 <= i < p.push(x).len() && p.push(x)[i] == y;
        if i < p.len() {
            assert(p[i] == y);
        }
    }
}

/// What claiming a set of signals does to one row: the row is claimed if it
/// was claimed before or holds one of the signals, its emitter is created if
/// the row holds one of the signals, and nothing else changes. Row counts
/// are preserved.
pub proof fn lemma_claim_at(pre: SignalMap, sigs: Seq<Signal>, j: int)
    requires
        pre.wf(),
        pre.rows_valid(sigs),
    ensures
        installed_after_claim(pre, sigs).len() == pre.installed@.len(),
        emitters_after_claim(pre, sigs).len() == pre.emitters@.len(),
        0 <= j < pre.installed@.len() ==> installed_after_claim(pre, sigs)[j] == (
        pre.installed@[j] || sigs.contains(pre.signals@[j])),
        0 <= j < pre.emitters@.len() ==> emitters_after_claim(pre, sigs)[j] == if sigs.contains(
            pre.signals@[j],
        ) {
            EmitterState::Initialized
        } else {
            pre.emitters@[j]
        },
    decreases sigs.len(),
{
    if sigs.len() == 0 {
    } else {
        let q = sigs.drop_last();
        let x = sigs.last();
        assert(forall|i: int| 0 <= i < q.len() ==> #[trigger] q[i] == sigs[i]);
        lemma_claim_at(pre, q, j);
        let row = pre.row_of(x);
        assert(sigs =~= q.push(x));
        if 0 <= j < pre.installed@.len() {
            lemma_contains_push(q, x, pre.signals@[j]);
            if j != row && pre.signals@[j] == x {
                pre.lemma_row_of_unique(x, j);
            }
        }
    }
}

/// What releasing a set of signals does to one row: the row stays claimed
/// exactly when it was claimed before and holds none of the signals. Row
/// counts are preserved.
pub proof fn lemma_release_at(pre: SignalMap, sigs: Seq<Signal>, j: int)
    requires
        pre.wf(),
        pre.rows_valid(sigs),
    ensures
        installed_after_release(pre, sigs).len() == pre.installed@.len(),
        0 <= j < pre.installed@.len() ==> installed_after_release(pre, sigs)[j] == (
        pre.installed@[j] && !sigs.contains(pre.signals@[j])),
    decreases sigs.len(),
{
    if sigs.len() == 0 {
    } else {
        let q = sigs.drop_last();
        let x = sigs.last();
        assert(forall|i: int| 0 <= i < q.len() ==> #[trigger] q[i] == sigs[i]);
        lemma_release_at(pre, q, j);
        let row = pre.row_of(x);
        assert(sigs =~= q.push(x));
        if 0 <= j < pre.installed@.len() {
            lemma_contains_push(q, x, pre.signals@[j]);
            if j != row && pre.signals@[j] == x {
                pre.lemma_row_of_unique(x, j);
            }
        }
    }
}

/// Whether a sequence of signals holds some signal twice.
fn has_duplicate(v: &Vec<Signal>) -> (r: bool)
    ensures
        r == !v@.no_duplicates(),
{
    let n = v.len();
    let mut k: usize = 0;
    while k < n
        invariant
            k <= n,
            n == v@.len(),
            forall|i: int, j: int| 0 <= j < i < k ==> v@[j] != v@[i],
        decreases n - k,
    {
        let mut j: usize = 0;
        while j < k
            invariant
                j <= k,
                k < n,
                n == v@.len(),
                forall|jj: int| 0 <= jj < j ==> v@[jj] != v@[k as int],
            decreases k - j,
        {
            if v[j] == v[k] {
                return true;
            }
            j = j + 1;
        }
        k = k + 1;
    }
    false
}

/// The pipe-backed multi-signal receiver: owns one subscription per signal
/// of its set and multiplexes waits across their emitters.
#[derive(Debug)]
pub struct UnixChannel {
    platform_signals: Vec<Signal>,
}

impl UnixChannel {
    /// The native signals this channel subscribed to.
    pub closed spec fn spec_signals(self) -> Seq<Signal> {
        self.platform_signals@
    }

    /// Whether some queued record of the registry announces a signal of
    /// this channel's set.
    pub open spec fn has_pending(self, m: SignalMap) -> bool {
        first_match_idx(m.pending_view(), self.spec_signals()) is Some
    }

    /// Subscribe to every signal of the set at once, creating each row's
    /// emitter and claiming each row. All or nothing: if any signal of the
    /// set is already held — or the set names a signal twice — no row is
    /// claimed at all and `MultipleHandlers` is returned.
    pub fn new(platform_signals: Vec<Signal>, map: &mut SignalMap) -> (r: Result<
        UnixChannel,
        Error,
    >)
        requires
            old(map).wf(),
            forall|i: int|
                0 <= i < platform_signals@.len() ==> old(map).contains_signal(
                    #[trigger] platform_signals@[i],
                ),
        ensures
            final(map).wf(),
            final(map).signals@ == old(map).signals@,
            !all_registrable(*old(map), platform_signals@) ==> r == Err::<UnixChannel, Error>(
                Error::MultipleHandlers,
            ) && SignalMap::unchanged(*old(map), *final(map)),
            all_registrable(*old(map), platform_signals@) ==> {
                &&& r matches Ok(ch) && ch.spec_signals() == platform_signals@
                &&& group_install_transition(*old(map), *final(map), platform_signals@)
            },
    {
        let ghost pre = *map;
        proof {
            assert forall|i: int| 0 <= i < platform_signals@.len() implies 0 <= pre.row_of(
                #[trigger] platform_signals@[i],
            ) < pre.signals@.len() && pre.signals@[pre.row_of(platform_signals@[i])]
                == platform_signals@[i] by {
                pre.lemma_row_of_contained(platform_signals@[i]);
            }
            assert(pre.rows_valid(platform_signals@));
        }
        let n = platform_signals.len();

        if has_duplicate(&platform_signals) {
            return Err(Error::MultipleHandlers);
        }

        let mut k: usize = 0;
        while k < n
            invariant
                map.wf(),
                *map == pre,
                pre.rows_valid(platform_signals@),
                n == platform_signals@.len(),
                k <= n,
                forall|i: int| 0 <= i < k ==> !pre.is_installed(#[trigger] platform_signals@[i]),
            decreases n - k,
        {
            let s = platform_signals[k];
            proof {
                assert(pre.signals@[pre.row_of(s)] == s);
                assert(pre.contains_signal(s));
            }
            let row = map.index_of(s).unwrap();
            if map.installed[row] {
                return Err(Error::MultipleHandlers);
            }
            k = k + 1;
        }

        let mut k: usize = 0;
        while k < n
            invariant
                map.wf(),
                pre.wf(),
                pre.rows_valid(platform_signals@),
                n == platform_signals@.len(),
                k <= n,
                all_registrable(pre, platform_signals@),
                map.signals@ == pre.signals@,
                map.counters@ == pre.counters@,
                map.pending@ == pre.pending@,
                map.installed@ == installed_after_claim(
                    pre,
                    platform_signals@.subrange(0, k as int),
                ),
                map.emitters@ == emitters_after_claim(
                    pre,
                    platform_signals@.subrange(0, k as int),
                ),
            decreases n - k,
        {
            let ghost before = *map;
            let ghost taken = platform_signals@.subrange(0, k as int);
            let s = platform_signals[k];
            let ghost row = pre.row_of(s);
            proof {
                assert(forall|i: int|
                    0 <= i < taken.len() ==> #[trigger] taken[i] == platform_signals@[i]);
                assert(pre.rows_valid(taken));
                assert(pre.signals@[row] == s);
                assert(pre.contains_signal(s));
                before.lemma_row_of_unique(s, row);
                lemma_claim_at(pre, taken, row);
                assert(!taken.contains(s)) by {
                    if taken.contains(s) {
                        let i = choose|i: int| 0 <= i < taken.len() && taken[i] == s;
                        assert(platform_signals@[i] == platform_signals@[k as int]);
                    }
                }
                assert(!before.is_installed(s));
            }
            map.ensure_emitter(s);
            let ghost mid = *map;
            proof {
                mid.lemma_row_of_unique(s, row);
                assert(!mid.is_installed(s));
            }
            match map.try_install(s, false) {
                Ok(()) => {},
                Err(_) => {
                    proof {
                        assert(false);
                    }
                    return Err(Error::MultipleHandlers);
                },
            }
            proof {
                let stepped = platform_signals@.subrange(0, k as int + 1);
                assert(stepped.drop_last() =~= taken);
                assert(stepped.last() == s);
                assert(installed_after_claim(pre, stepped) == installed_after_claim(
                    pre,
                    taken,
                ).update(row, true));
                assert(map.installed@ == mid.installed@.update(row, true));
                assert(emitters_after_claim(pre, stepped) == emitters_after_claim(
                    pre,
                    taken,
                ).update(row, EmitterState::Initialized));
                assert(mid.emitters@ == before.emitters@.update(row, EmitterState::Initialized));
            }
            k = k + 1;
        }
        proof {
            assert(platform_signals@.subrange(0, n as int) =~= platform_signals@);
        }
        Ok(UnixChannel { platform_signals })
    }

    /// How many subscribed emitters hold at least one queued record: what a
    /// zero-timeout readiness wait over the subscribed descriptors would
    /// report as ready.
    pub fn num_of_ready_fds(&self, map: &SignalMap) -> (r: usize)
        requires
            map.wf(),
        ensures
            r == ready_count(map.pending_view(), self.spec_signals()),
            r <= self.spec_signals().len(),
    {
        let n = self.platform_signals.len();
        let mut count: usize = 0;
        let mut k: usize = 0;
        while k < n
            invariant
                map.wf(),
                k <= n,
                n == self.platform_signals@.len(),
                count <= k,
                count == ready_count(
                    map.pending_view(),
                    self.platform_signals@.subrange(0, k as int),
                ),
            decreases n - k,
        {
            let s = self.platform_signals[k];
            proof {
                let sub = self.platform_signals@.subrange(0, (k + 1) as int);
                assert(sub.drop_last() =~= self.platform_signals@.subrange(0, k as int));
                assert(sub.last() == s);
            }
            if has_record_for(map, s) {
                count = count + 1;
            }
            k = k + 1;
        }
        proof {
            assert(self.platform_signals@.subrange(0, n as int) =~= self.platform_signals@);
        }
        count
    }

    /// Receive the signal whose delivery has waited longest among this
    /// channel's signals. This is the consuming half of a blocking receive:
    /// the caller reaches it once a delivery is pending, so one is owed.
    /// Exactly one queued record is consumed; records of other subscribers
    /// stay queued.
    pub fn recv(&self, map: &mut SignalMap) -> (r: Result<SignalType, Error>)
        requires
            old(map).wf(),
            self.has_pending(*old(map)),
        ensures
            final(map).wf(),
            final(map).signals@ == old(map).signals@,
            final(map).counters@ == old(map).counters@,
            final(map).emitters@ == old(map).emitters@,
            final(map).installed@ == old(map).installed@,
            r matches Ok(t) && first_match_idx(old(map).pending_view(), self.spec_signals())
                matches Some(i) && t == SignalType::spec_from_platform(
                decoding_of(old(map).pending_view()[i]),
            ) && final(map).pending_view() == old(map).pending_view().remove(i),
    {
        match map.take_pending(&self.platform_signals) {
            Some(sig) => Ok(SignalType::from_platform_signal(sig)),
            None => {
                proof {
                    assert(false);
                }
                Err(Error::ChannelEmpty)
            },
        }
    }

    /// Receive as `recv` does, but never wait: with no delivery pending for
    /// this channel's signals, report `ChannelEmpty` and leave every queued
    /// record where it is.
    pub fn try_recv(&self, map: &mut SignalMap) -> (r: Result<SignalType, Error>)
        requires
            old(map).wf(),
        ensures
            final(map).wf(),
            final(map).signals@ == old(map).signals@,
            final(map).counters@ == old(map).counters@,
            final(map).emitters@ == old(map).emitters@,
            final(map).installed@ == old(map).installed@,
            self.has_pending(*old(map)) ==> (r matches Ok(t) && first_match_idx(
                old(map).pending_view(),
                self.spec_signals(),
            ) matches Some(i) && t == SignalType::spec_from_platform(
                decoding_of(old(map).pending_view()[i]),
            ) && final(map).pending_view() == old(map).pending_view().remove(i)),
            !self.has_pending(*old(map)) ==> r == Err::<SignalType, Error>(Error::ChannelEmpty)
                && final(map).pending_view() == old(map).pending_view(),
    {
        match map.take_pending(&self.platform_signals) {
            Some(sig) => Ok(SignalType::from_platform_signal(sig)),
            None => Err(Error::ChannelEmpty),
        }
    }

    /// Give every subscription of this channel up: each subscribed row is
    /// released and takes a new subscriber again. Hit counters keep their
    /// values, emitters stay created and already queued records stay queued.
    pub fn release(self, map: &mut SignalMap)
        requires
            old(map).wf(),
            forall|i: int|
                0 <= i < self.spec_signals().len() ==> old(map).contains_signal(
                    #[trigger] self.spec_signals()[i],
                ),
        ensures
            final(map).wf(),
            group_release_transition(*old(map), *final(map), self.spec_signals()),
    {
        let ghost pre = *map;
        proof {
            assert forall|i: int| 0 <= i < self.platform_signals@.len() implies 0 <= pre.row_of(
                #[trigger] self.platform_signals@[i],
            ) < pre.signals@.len() && pre.signals@[pre.row_of(self.platform_signals@[i])]
                == self.platform_signals@[i] by {
                assert(pre.contains_signal(self.spec_signals()[i]));
                pre.lemma_row_of_contained(self.platform_signals@[i]);
            }
            assert(pre.rows_valid(self.platform_signals@));
        }
        let n = self.platform_signals.len();
        let mut k: usize = 0;
        while k < n
            invariant
                map.wf(),
                pre.wf(),
                pre.rows_valid(self.platform_signals@),
                k <= n,
                n == self.platform_signals@.len(),
                map.signals@ == pre.signals@,
                map.counters@ == pre.counters@,
                map.emitters@ == pre.emitters@,
                map.pending@ == pre.pending@,
                map.installed@ == installed_after_release(
                    pre,
                    self.platform_signals@.subrange(0, k as int),
                ),
            decreases n - k,
        {
            let ghost before = *map;
            let ghost taken = self.platform_signals@.subrange(0, k as int);
            let s = self.platform_signals[k];
            let ghost row = pre.row_of(s);
            proof {
                assert(pre.signals@[row] == s);
                assert(pre.contains_signal(s));
                before.lemma_row_of_unique(s, row);
            }
            map.uninstall(s);
            proof {
                let stepped = self.platform_signals@.subrange(0, k as int + 1);
                assert(stepped.drop_last() =~= taken);
                assert(stepped.last() == s);
                assert(installed_after_release(pre, stepped) == installed_after_release(
                    pre,
                    taken,
                ).update(row, false));
                assert(map.installed@ == before.installed@.update(row, false));
            }
            k = k + 1;
        }
        proof {
            assert(self.platform_signals@.subrange(0, n as int) =~= self.platform_signals@);
        }
    }
}

/// The most simultaneous emitters one blocking multi-object wait can
/// multiplex; a channel over more signals than this is refused outright.
pub const MAXIMUM_WAIT_OBJECTS: usize = 64;

/// The native signals a sequence of logical signals stands for.
pub open spec fn natives_of(ts: Seq<SignalType>) -> Seq<Signal> {
    ts.map_values(|t: SignalType| t.spec_to_platform())
}

/// The position of the first requested logical signal whose native signal
/// has no row in the table, if any.
pub open spec fn first_unrepresentable(m: SignalMap, ts: Seq<SignalType>) -> Option<int>
    decreases ts.len(),
{
    if ts.len() == 0 {
        None
    } else if !m.contains_signal(ts[0].spec_to_platform()) {
        Some(0)
    } else {
        match first_unrepresentable(m, ts.drop_first()) {
            Some(i) => Some(i + 1),
            None => None,
        }
    }
}

/// A position holding an unrepresentable signal, preceded only by
/// representable ones, is the first unrepresentable position.
proof fn lemma_first_unrepresentable_at(m: SignalMap, ts: Seq<SignalType>, i: int)
    requires
        0 <= i < ts.len(),
        !m.contains_signal(ts[i].spec_to_platform()),
        forall|j: int|
            0 <= j < i ==> m.contains_signal((#[trigger] ts[j]).spec_to_platform()),
    ensures
        first_unrepresentable(m, ts) == Some(i),
    decreases i,
{
    if i == 0 {
    } else {
        let q = ts.drop_first();
        assert(forall|j: int| 0 <= j < q.len() ==> #[trigger] q[j] == ts[j + 1]);
        lemma_first_unrepresentable_at(m, q, i - 1);
    }
}

/// A request whose signals are all representable has no unrepresentable
/// position.
proof fn lemma_first_unrepresentable_none(m: SignalMap, ts: Seq<SignalType>)
    requires
        forall|j: int|
            0 <= j < ts.len() ==> m.contains_signal((#[trigger] ts[j]).spec_to_platform()),
    ensures
        first_unrepresentable(m, ts) is None,
    decreases ts.len(),
{
    if ts.len() > 0 {
        let q = ts.drop_first();
        assert(forall|j: int| 0 <= j < q.len() ==> #[trigger] q[j] == ts[j + 1]);
        lemma_first_unrepresentable_none(m, q);
    }
}

/// Builder for `Channel`, allowing a channel over more than one signal to
/// be put together before any subscription is made.
#[derive(Debug)]
pub struct ChannelBuilder {
    signals: Vec<SignalType>,
}

impl ChannelBuilder {
    /// The logical signals added so far, in order.
    pub closed spec fn spec_signals(self) -> Seq<SignalType> {
        self.signals@
    }

    /// Add a signal to this channel builder. Nothing is subscribed yet.
    pub fn add_signal(self, signal: SignalType) -> (r: ChannelBuilder)
        ensures
            r.spec_signals() == self.spec_signals().push(signal),
    {
        let mut signals = self.signals;
        signals.push(signal);
        ChannelBuilder { signals }
    }

    /// Build a `Channel` from this channel builder, subscribing to every
    /// added signal at once.
    pub fn build(self, map: &mut SignalMap) -> (r: Result<Channel, Error>)
        requires
            old(map).wf(),
        ensures
            final(map).wf(),
            final(map).signals@ == old(map).signals@,
            channel_group_outcome(*old(map), *final(map), self.spec_signals(), r),
    {
        Channel::new_from_multiple(self.signals, map)
    }
}

/// What requesting a channel over the given logical signals does and
/// returns, case by case: the first unrepresentable signal is refused as
/// `NoSuchSignal` carrying that signal unchanged; then a set beyond the
/// multi-object wait cap is refused as `TooManySignals`; then a set with a
/// signal already held — or named twice — is refused as `MultipleHandlers`;
/// a refusal leaves the table untouched. Otherwise the channel claims every
/// requested row at once.
pub open spec fn channel_group_outcome(
    pre: SignalMap,
    post: SignalMap,
    ts: Seq<SignalType>,
    r: Result<Channel, Error>,
) -> bool {
    &&& (first_unrepresentable(pre, ts) matches Some(i) ==> r == Err::<Channel, Error>(
        Error::NoSuchSignal(ts[i]),
    ) && SignalMap::unchanged(pre, post))
    &&& (first_unrepresentable(pre, ts) is None && ts.len() > MAXIMUM_WAIT_OBJECTS ==> r == Err::<
        Channel,
        Error,
    >(Error::TooManySignals) && SignalMap::unchanged(pre, post))
    &&& (first_unrepresentable(pre, ts) is None && ts.len() <= MAXIMUM_WAIT_OBJECTS
        && !all_registrable(pre, natives_of(ts)) ==> r == Err::<Channel, Error>(
        Error::MultipleHandlers,
    ) && SignalMap::unchanged(pre, post))
    &&& (first_unrepresentable(pre, ts) is None && ts.len() <= MAXIMUM_WAIT_OBJECTS
        && all_registrable(pre, natives_of(ts)) ==> (r matches Ok(ch) && ch.subscribed()
        == natives_of(ts) && group_install_transition(pre, post, natives_of(ts))))
}

/// The multi-signal receiver: owns one subscription per signal of its set,
/// multiplexes waits across their emitters and reports which signal fired.
#[derive(Debug)]
pub struct Channel {
    inner: UnixChannel,
}

impl Channel {
    /// The native signals this channel subscribed to.
    pub closed spec fn subscribed(self) -> Seq<Signal> {
        self.inner.spec_signals()
    }

    /// Whether some queued record of the registry announces a signal of
    /// this channel's set.
    pub open spec fn has_pending(self, m: SignalMap) -> bool {
        first_match_idx(m.pending_view(), self.subscribed()) is Some
    }

    /// Create a channel over one signal: its row's emitter is created and
    /// the row claimed. Refused with `NoSuchSignal` — carrying the requested
    /// signal unchanged — when the signal is not representable, and with
    /// `MultipleHandlers` when another subscriber already holds the row; a
    /// refusal leaves the table untouched.
    pub fn new(signal: SignalType, map: &mut SignalMap) -> (r: Result<Channel, Error>)
        requires
            old(map).wf(),
        ensures
            final(map).wf(),
            final(map).signals@ == old(map).signals@,
            !old(map).contains_signal(signal.spec_to_platform()) ==> r == Err::<Channel, Error>(
                Error::NoSuchSignal(signal),
            ) && SignalMap::unchanged(*old(map), *final(map)),
            old(map).contains_signal(signal.spec_to_platform()) && old(map).is_installed(
                signal.spec_to_platform(),
            ) ==> r == Err::<Channel, Error>(Error::MultipleHandlers) && SignalMap::unchanged(
                *old(map),
                *final(map),
            ),
            old(map).can_register(signal.spec_to_platform()) ==> {
                &&& r matches Ok(ch) && ch.subscribed() == seq![signal.spec_to_platform()]
                &&& final(map).counters@ == old(map).counters@
                &&& final(map).pending@ == old(map).pending@
                &&& final(map).installed@ == old(map).installed@.update(
                    old(map).row_of(signal.spec_to_platform()),
                    true,
                )
                &&& final(map).emitters@ == old(map).emitters@.update(
                    old(map).row_of(signal.spec_to_platform()),
                    EmitterState::Initialized,
                )
            },
    {
        let ghost pre = *map;
        let mut signals: Vec<SignalType> = Vec::new();
        signals.push(signal);
        let ghost ts = signals@;
        let r = Channel::new_from_multiple(signals, map);
        proof {
            let s = signal.spec_to_platform();
            assert(natives_of(ts) =~= seq![s]);
            if !pre.contains_signal(s) {
                assert(first_unrepresentable(pre, ts) == Some(0int));
            } else {
                assert(first_unrepresentable(pre, ts.drop_first()) is None);
                assert(first_unrepresentable(pre, ts) is None);
                assert(natives_of(ts).no_duplicates());
                if pre.is_installed(s) {
                    assert(!all_registrable(pre, natives_of(ts))) by {
                        assert(natives_of(ts)[0] == s);
                    }
                } else {
                    assert(all_registrable(pre, natives_of(ts))) by {
                        assert(forall|i: int|
                            0 <= i < natives_of(ts).len() ==> #[trigger] natives_of(ts)[i] == s);
                    }
                    let nts = natives_of(ts);
                    let q = nts.drop_last();
                    assert(q.len() == 0);
                    assert(nts.last() == s);
                    assert(installed_after_claim(pre, q) == pre.installed@);
                    assert(emitters_after_claim(pre, q) == pre.emitters@);
                    assert(installed_after_claim(pre, nts) == installed_after_claim(
                        pre,
                        q,
                    ).update(pre.row_of(s), true));
                    assert(emitters_after_claim(pre, nts) == emitters_after_claim(pre, q).update(
                        pre.row_of(s),
                        EmitterState::Initialized,
                    ));
                }
            }
        }
        r
    }

    /// Return a `ChannelBuilder` that can be used to put together a
    /// `Channel` over multiple signals.
    pub fn new_with_multiple() -> (r: ChannelBuilder)
        ensures
            r.spec_signals() == Seq::<SignalType>::empty(),
    {
        let b = ChannelBuilder { signals: Vec::new() };
        proof {
            assert(b.spec_signals() =~= Seq::<SignalType>::empty());
        }
        b
    }

    /// Create a channel over a set of logical signals at once. All or
    /// nothing: if any signal is refused, no subscription is made at all.
    pub fn new_from_multiple(signals: Vec<SignalType>, map: &mut SignalMap) -> (r: Result<
        Channel,
        Error,
    >)
        requires
            old(map).wf(),
        ensures
            final(map).wf(),
            final(map).signals@ == old(map).signals@,
            channel_group_outcome(*old(map), *final(map), signals@, r),
    {
        let ghost pre = *map;
        let n = signals.len();
        let mut natives: Vec<Signal> = Vec::new();
        let mut k: usize = 0;
        while k < n
            invariant
                map.wf(),
                *map == pre,
                k <= n,
                n == signals@.len(),
                natives@.len() == k as int,
                forall|i: int|
                    0 <= i < k ==> #[trigger] natives@[i] == signals@[i].spec_to_platform(),
                forall|i: int|
                    0 <= i < k ==> 0 <= pre.row_of(#[trigger] natives@[i]) < pre.signals@.len()
                        && pre.signals@[pre.row_of(natives@[i])] == natives@[i],
            decreases n - k,
        {
            let native = signals[k].to_platform_signal();
            match map.index_of(native) {
                None => {
                    proof {
                        assert forall|j: int|
                            0 <= j < k implies pre.contains_signal(
                            (#[trigger] signals@[j]).spec_to_platform(),
                        ) by {
                            assert(natives@[j] == signals@[j].spec_to_platform());
                            assert(pre.signals@[pre.row_of(natives@[j])] == natives@[j]);
                        }
                        lemma_first_unrepresentable_at(pre, signals@, k as int);
                    }
                    return Err(Error::NoSuchSignal(signals[k]));
                },
                Some(row) => {
                    natives.push(native);
                },
            }
            k = k + 1;
        }
        proof {
            assert forall|j: int|
                0 <= j < n implies pre.contains_signal(
                (#[trigger] signals@[j]).spec_to_platform(),
            ) by {
                assert(natives@[j] == signals@[j].spec_to_platform());
                assert(pre.signals@[pre.row_of(natives@[j])] == natives@[j]);
            }
            lemma_first_unrepresentable_none(pre, signals@);
            assert(natives@ =~= natives_of(signals@));
        }

        if signals.len() > MAXIMUM_WAIT_OBJECTS {
            return Err(Error::TooManySignals);
        }

        proof {
            assert forall|i: int|
                0 <= i < natives@.len() implies pre.contains_signal(#[trigger] natives@[i]) by {
                assert(pre.signals@[pre.row_of(natives@[i])] == natives@[i]);
            }
        }
        match UnixChannel::new(natives, map) {
            Ok(inner) => Ok(Channel { inner }),
            Err(e) => Err(e),
        }
    }

    /// Receive the signal whose delivery has waited longest among this
    /// channel's signals, consuming exactly one queued record. This is the
    /// consuming half of a blocking receive: the caller reaches it once a
    /// delivery is pending, so one is owed.
    pub fn recv(&self, map: &mut SignalMap) -> (r: Result<SignalType, Error>)
        requires
            old(map).wf(),
            self.has_pending(*old(map)),
        ensures
            final(map).wf(),
            final(map).signals@ == old(map).signals@,
            final(map).counters@ == old(map).counters@,
            final(map).emitters@ == old(map).emitters@,
            final(map).installed@ == old(map).installed@,
            r matches Ok(t) && first_match_idx(old(map).pending_view(), self.subscribed())
                matches Some(i) && t == SignalType::spec_from_platform(
                decoding_of(old(map).pending_view()[i]),
            ) && final(map).pending_view() == old(map).pending_view().remove(i),
    {
        self.inner.recv(map)
    }

    /// Receive as `recv` does, but never wait: with no delivery pending for
    /// this channel's signals, report `ChannelEmpty` and leave every queued
    /// record where it is.
    pub fn try_recv(&self, map: &mut SignalMap) -> (r: Result<SignalType, Error>)
        requires
            old(map).wf(),
        ensures
            final(map).wf(),
            final(map).signals@ == old(map).signals@,
            final(map).counters@ == old(map).counters@,
            final(map).emitters@ == old(map).emitters@,
            final(map).installed@ == old(map).installed@,
            self.has_pending(*old(map)) ==> (r matches Ok(t) && first_match_idx(
                old(map).pending_view(),
                self.subscribed(),
            ) matches Some(i) && t == SignalType::spec_from_platform(
                decoding_of(old(map).pending_view()[i]),
            ) && final(map).pending_view() == old(map).pending_view().remove(i)),
            !self.has_pending(*old(map)) ==> r == Err::<SignalType, Error>(Error::ChannelEmpty)
                && final(map).pending_view() == old(map).pending_view(),
    {
        self.inner.try_recv(map)
    }

    /// Give every subscription of this channel up: each subscribed row is
    /// released and takes a new subscriber again. Hit counters keep their
    /// values, emitters stay created and already queued records stay queued.
    pub fn release(self, map: &mut SignalMap)
        requires
            old(map).wf(),
            forall|i: int|
                0 <= i < self.subscribed().len() ==> old(map).contains_signal(
                    #[trigger] self.subscribed()[i],
                ),
        ensures
            final(map).wf(),
            group_release_transition(*old(map), *final(map), self.subscribed()),
    {
        self.inner.release(map)
    }
}

/// Raising a subscribed signal when nothing is pending for the channel makes
/// exactly that delivery receivable: the queue's first match for the channel
/// is the new record, and the record decodes back to the raised signal — the
/// four-byte identifier round-trips. With `try_recv`'s contract: a
/// `try_recv` that just answered `ChannelEmpty` answers the signal once it
/// is raised.
pub proof fn lemma_raise_then_receive(pre: SignalMap, post: SignalMap, ch: Channel, s: Signal)
    requires
        pre.wf(),
        pre.contains_signal(s),
        pre.is_installed(s),
        pre.emitter_at(s) == EmitterState::Initialized,
        SignalMap::deliver_transition(pre, post, s),
        ch.subscribed().contains(s),
        !ch.has_pending(pre),
    ensures
        ch.has_pending(post),
        first_match_idx(post.pending_view(), ch.subscribed()) == Some(
            pre.pending_view().len() as int,
        ),
        decoding_of(post.pending_view()[pre.pending_view().len() as int]) == s,
{
    crate::emitter::lemma_codec_round_trip(s);
    let subs = ch.subscribed();
    let p0 = pre.pending_view();
    let p1 = post.pending_view();
    assert(p1 == p0.push(encoding_of(s)));
    crate::signalmap::lemma_no_first_match(p0, subs);
    let n = p0.len() as int;
    assert(p1[n] == encoding_of(s));
    assert(crate::signalmap::record_matches(p1[n], subs));
    assert forall|j: int| 0 <= j < n implies !crate::signalmap::record_matches(
        #[trigger] p1[j],
        subs,
    ) by {
        assert(p1[j] == p0[j]);
    }
    crate::signalmap::lemma_first_match_at(p1, subs, n);
}

/// Deliveries are received oldest first: raising one subscribed signal and
/// then another, when nothing was pending for the channel, makes the first
/// raise receivable first, and — once its record is consumed — the second
/// next. With `recv`'s contract: two `recv` calls yield the two signals in
/// the order they were raised, each consuming exactly one delivery.
pub proof fn lemma_receive_in_raise_order(
    m0: SignalMap,
    m1: SignalMap,
    m2: SignalMap,
    ch: Channel,
    s1: Signal,
    s2: Signal,
)
    requires
        m0.wf(),
        m0.contains_signal(s1),
        m0.is_installed(s1),
        m0.emitter_at(s1) == EmitterState::Initialized,
        m0.contains_signal(s2),
        m0.is_installed(s2),
        m0.emitter_at(s2) == EmitterState::Initialized,
        SignalMap::deliver_transition(m0, m1, s1),
        SignalMap::deliver_transition(m1, m2, s2),
        ch.subscribed().contains(s1),
        ch.subscribed().contains(s2),
        !ch.has_pending(m0),
    ensures
        first_match_idx(m2.pending_view(), ch.subscribed()) == Some(
            m0.pending_view().len() as int,
        ),
        decoding_of(m2.pending_view()[m0.pending_view().len() as int]) == s1,
        first_match_idx(
            m2.pending_view().remove(m0.pending_view().len() as int),
            ch.subscribed(),
        ) == Some(m0.pending_view().len() as int),
        decoding_of(
            m2.pending_view().remove(m0.pending_view().len() as int)[m0.pending_view().len() as int],
        ) == s2,
{
    crate::emitter::lemma_codec_round_trip(s1);
    crate::emitter::lemma_codec_round_trip(s2);
    crate::signalmap::lemma_deliver_preserves(m0, m1, s1, s2);
    let subs = ch.subscribed();
    let p0 = m0.pending_view();
    let p1 = m1.pending_view();
    let p2 = m2.pending_view();
    assert(p1 == p0.push(encoding_of(s1)));
    assert(p2 == p1.push(encoding_of(s2)));
    crate::signalmap::lemma_no_first_match(p0, subs);
    let n = p0.len() as int;
    assert(p2[n] == encoding_of(s1));
    assert(crate::signalmap::record_matches(p2[n], subs));
    assert forall|j: int| 0 <= j < n implies !crate::signalmap::record_matches(
        #[trigger] p2[j],
        subs,
    ) by {
        assert(p2[j] == p0[j]);
    }
    crate::signalmap::lemma_first_match_at(p2, subs, n);
    let rest = p2.remove(n);
    assert(rest =~= p0.push(encoding_of(s2)));
    assert(rest[n] == encoding_of(s2));
    assert(crate::signalmap::record_matches(rest[n], subs));
    assert forall|j: int| 0 <= j < n implies !crate::signalmap::record_matches(
        #[trigger] rest[j],
        subs,
    ) by {
        assert(rest[j] == p0[j]);
    }
    crate::signalmap::lemma_first_match_at(rest, subs, n);
}

/// Whether some queued record of the registry announces the signal.
fn has_record_for(map: &SignalMap, s: Signal) -> (r: bool)
    requires
        map.wf(),
    ensures
        r == signal_pending_in(map.pending_view(), s),
{
    let n = map.pending.len();
    let mut k: usize = 0;
    while k < n
        invariant
            map.wf(),
            k <= n,
            n == map.pending@.len(),
            forall|j: int| 0 <= j < k ==> decoding_of(#[trigger] map.pending_view()[j]) != s,
        decreases n - k,
    {
        let sig = decode_signal_id(&map.pending[k]);
        if sig == s {
            proof {
                assert(decoding_of(map.pending_view()[k as int]) == s);
            }
            return true;
        }
        k = k + 1;
    }
    false
}

} // verus!
