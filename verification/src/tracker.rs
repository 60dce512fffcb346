//! The window of probes that are still awaited.
//!
//! The tracker keeps the most recent probes in the order in which they were
//! sent, at most `max_queue_size` of them: recording one more drops the oldest.
//! A reply names a sequence number, and the probe it answers is found from
//! that number and the newest one alone.

use std::collections::VecDeque;
use vstd::prelude::*;

verus! {

/// One probe as the tracker keeps it.
#[derive(Debug, Clone, Copy, PartialEq, Eq)]
pub struct Probe {
    /// The number the probe was sent under.
    pub sequence: u64,
    /// When it was sent, in microseconds.
    pub sent_at: u128,
    /// The delay of the first reply, in microseconds; `None` while no reply
    /// has been matched.
    pub latency: Option<u64>,
}

impl Probe {
    /// The latency that a report shows for this probe: the observed delay, or
    /// `pending_latency` while there is none.
    pub open spec fn reported_latency(self, pending_latency: u64) -> u64 {
        match self.latency {
            Some(delay) => delay,
            None => pending_latency,
        }
    }
}

/// The tracker as a mathematical value.
pub struct TrackerView {
    /// The probes kept, oldest first.
    pub entries: Seq<Probe>,
    /// The most probes that are ever kept.
    pub max_queue_size: nat,
    /// The latency reported for a probe without a reply.
    pub pending_latency: u64,
}

impl TrackerView {
    /// The memory bound: never more probes than `max_queue_size`.
    pub open spec fn bounded(self) -> bool {
        self.entries.len() <= self.max_queue_size
    }

    /// The probes kept carry consecutive sequence numbers, oldest first.
    pub open spec fn consecutive(self) -> bool {
        forall|i: int|
            0 <= i < self.entries.len() ==> (#[trigger] self.entries[i]).sequence
                == self.entries[0].sequence + i
    }

    /// The sequence number of the newest probe kept.
    pub open spec fn tail_sequence(self) -> Option<u64> {
        if self.entries.len() == 0 {
            None
        } else {
            Some(self.entries.last().sequence)
        }
    }

    /// `sequence` is the number that continues the window: any number while
    /// nothing is kept, else the successor of the newest one.
    pub open spec fn continues(self, sequence: u64) -> bool {
        match self.tail_sequence() {
            Some(tail) => sequence == tail + 1,
            None => true,
        }
    }

    /// Some probe kept has the number `sequence`.
    pub open spec fn holds(self, sequence: u64) -> bool {
        exists|i: int| 0 <= i < self.entries.len() && (#[trigger] self.entries[i]).sequence == sequence
    }

    /// The tracker after one more probe was recorded: the oldest probe leaves
    /// first where the window is full, then the new one enters at the tail
    /// without a latency. A tracker of size zero keeps nothing.
    pub open spec fn record_sent(self, sequence: u64, sent_at: u128) -> TrackerView {
        if self.max_queue_size == 0 {
            self
        } else {
            let kept = if self.entries.len() >= self.max_queue_size {
                self.entries.subrange(1, self.entries.len() as int)
            } else {
                self.entries
            };
            TrackerView {
                entries: kept.push(Probe { sequence, sent_at, latency: None }),
                ..self
            }
        }
    }

    /// Where the probe `sequence` stands, counted from the oldest: with the
    /// newest number `tail` and `len` probes kept it is `len - (tail - sequence) - 1`,
    /// as long as `tail - sequence < len`. A number above `tail`, or one so far
    /// below it that its probe has left, has no position.
    pub open spec fn position_of(self, sequence: u64) -> Option<int> {
        match self.tail_sequence() {
            Some(tail) => if sequence <= tail && tail - sequence < self.entries.len() {
                Some(self.entries.len() - (tail - sequence) - 1)
            } else {
                None
            },
            None => None,
        }
    }

    /// A reply to `sequence` seen at `observed_at` can be matched: its probe
    /// has a position, has no latency yet, and was sent no later than the
    /// reply was seen and no more than `u64::MAX` microseconds before.
    pub open spec fn resolvable(self, sequence: u64, observed_at: u128) -> bool {
        match self.position_of(sequence) {
            Some(at) => {
                &&& self.entries[at].latency is None
                &&& self.entries[at].sent_at <= observed_at
                &&& observed_at - self.entries[at].sent_at <= u64::MAX
            },
            None => false,
        }
    }

    /// The tracker after a reply to `sequence` was seen at `observed_at`: the
    /// matched probe gets its latency, and nothing else changes. A reply that
    /// cannot be matched changes nothing.
    pub open spec fn resolve(self, sequence: u64, observed_at: u128) -> TrackerView {
        if self.resolvable(sequence, observed_at) {
            let at = self.position_of(sequence).unwrap();
            let probe = self.entries[at];
            TrackerView {
                entries: self.entries.update(
                    at,
                    Probe { latency: Some((observed_at - probe.sent_at) as u64), ..probe },
                ),
                ..self
            }
        } else {
            self
        }
    }

    /// What a report reads: send time and reported latency of each probe kept,
    /// oldest first.
    pub open spec fn snapshot(self) -> Seq<(u128, u64)> {
        Seq::new(
            self.entries.len(),
            |i: int| (self.entries[i].sent_at, self.entries[i].reported_latency(self.pending_latency)),
        )
    }
}

impl TrackerView {
    /// The tracker after each probe of `sent`, a list of sequence number and
    /// send time, was recorded in turn.
    pub open spec fn record_all(self, sent: Seq<(u64, u128)>) -> TrackerView
        decreases sent.len(),
    {
        if sent.len() == 0 {
            self
        } else {
            self.record_all(sent.drop_last()).record_sent(sent.last().0, sent.last().1)
        }
    }
}

/// Recording a probe keeps the memory bound, whatever its number.
pub proof fn lemma_record_sent_bounded(tracker: TrackerView, sequence: u64, sent_at: u128)
    requires
        tracker.bounded(),
    ensures
        tracker.record_sent(sequence, sent_at).bounded(),
        tracker.record_sent(sequence, sent_at).max_queue_size == tracker.max_queue_size,
{
}

/// The memory bound holds after any run of recordings, and so after each
/// step of it.
pub proof fn lemma_record_all_bounded(tracker: TrackerView, sent: Seq<(u64, u128)>)
    requires
        tracker.bounded(),
    ensures
        tracker.record_all(sent).bounded(),
        tracker.record_all(sent).max_queue_size == tracker.max_queue_size,
    decreases sent.len(),
{
    if sent.len() > 0 {
        lemma_record_all_bounded(tracker, sent.drop_last());
        lemma_record_sent_bounded(
            tracker.record_all(sent.drop_last()),
            sent.last().0,
            sent.last().1,
        );
    }
}

/// Matching a reply neither adds nor removes a probe, nor changes a number
/// or a send time.
pub proof fn lemma_resolve_keeps_window(tracker: TrackerView, sequence: u64, observed_at: u128)
    ensures
        tracker.resolve(sequence, observed_at).entries.len() == tracker.entries.len(),
        tracker.resolve(sequence, observed_at).max_queue_size == tracker.max_queue_size,
        tracker.resolve(sequence, observed_at).pending_latency == tracker.pending_latency,
        forall|i: int|
            0 <= i < tracker.entries.len() ==> {
                &&& (#[trigger] tracker.resolve(sequence, observed_at).entries[i]).sequence
                    == tracker.entries[i].sequence
                &&& tracker.resolve(sequence, observed_at).entries[i].sent_at
                    == tracker.entries[i].sent_at
            },
        tracker.bounded() ==> tracker.resolve(sequence, observed_at).bounded(),
        tracker.consecutive() ==> tracker.resolve(sequence, observed_at).consecutive(),
{
}

/// A window of consecutive numbers stays one when the number that continues
/// it is recorded.
pub proof fn lemma_record_sent_consecutive(tracker: TrackerView, sequence: u64, sent_at: u128)
    requires
        tracker.bounded(),
        tracker.consecutive(),
        tracker.continues(sequence),
    ensures
        tracker.record_sent(sequence, sent_at).consecutive(),
{
    let after = tracker.record_sent(sequence, sent_at);
    assert forall|i: int| 0 <= i < after.entries.len() implies (#[trigger] after.entries[i]).sequence
        == after.entries[0].sequence + i by {
        if tracker.max_queue_size > 0 && tracker.entries.len() > 0 {
            let last = tracker.entries.len() - 1;
            assert(tracker.entries[last].sequence == tracker.entries[0].sequence + last);
            if tracker.entries.len() >= tracker.max_queue_size {
                if i < after.entries.len() - 1 {
                    assert(after.entries[i] == tracker.entries[i + 1]);
                }
                if after.entries.len() > 1 {
                    assert(after.entries[0] == tracker.entries[1]);
                }
            } else {
                if i < after.entries.len() - 1 {
                    assert(after.entries[i] == tracker.entries[i]);
                }
                assert(after.entries[0] == tracker.entries[0]);
            }
        }
    }
}

/// In a window of consecutive numbers the position formula finds the probe
/// that carries the number, and has a position exactly for the numbers kept.
pub proof fn lemma_position_finds_sequence(tracker: TrackerView, sequence: u64)
    requires
        tracker.consecutive(),
    ensures
        tracker.position_of(sequence) matches Some(at) ==> 0 <= at < tracker.entries.len()
            && tracker.entries[at].sequence == sequence,
        tracker.holds(sequence) <==> tracker.position_of(sequence) is Some,
        forall|i: int|
            0 <= i < tracker.entries.len() && (#[trigger] tracker.entries[i]).sequence == sequence
                ==> tracker.position_of(sequence) == Some(i),
{
    let len = tracker.entries.len() as int;
    if len > 0 {
        assert(tracker.entries[len - 1].sequence == tracker.entries[0].sequence + len - 1);
        match tracker.position_of(sequence) {
            Some(at) => {
                assert(tracker.entries[at].sequence == tracker.entries[0].sequence + at);
            },
            None => {},
        }
    }
}

/// The first reply to a probe that is kept sets its latency; a second reply
/// to the same number, whenever it is seen, is refused and changes nothing.
pub proof fn lemma_resolve_once(
    tracker: TrackerView,
    sequence: u64,
    first_seen: u128,
    second_seen: u128,
)
    requires
        tracker.resolvable(sequence, first_seen),
    ensures
        tracker.position_of(sequence) matches Some(at) && {
            let after = tracker.resolve(sequence, first_seen);
            &&& tracker.entries[at].latency is None
            &&& after.entries[at].latency == Some((first_seen - tracker.entries[at].sent_at) as u64)
            &&& after.entries == tracker.entries.update(at, after.entries[at])
            &&& !after.resolvable(sequence, second_seen)
            &&& after.resolve(sequence, second_seen) == after
        },
{
}

/// A reply to a number whose probe has left the window, or that is above the
/// newest number, is refused and changes nothing.
pub proof fn lemma_evicted_unresolvable(tracker: TrackerView, sequence: u64, observed_at: u128)
    requires
        match tracker.tail_sequence() {
            Some(tail) => sequence > tail || tail - sequence >= tracker.entries.len(),
            None => true,
        },
    ensures
        !tracker.resolvable(sequence, observed_at),
        tracker.resolve(sequence, observed_at) == tracker,
{
}

/// The report shows the pending latency for exactly the probes without a
/// reply, and the observed delay for the others.
pub proof fn lemma_snapshot_entries(tracker: TrackerView, i: int)
    requires
        0 <= i < tracker.entries.len(),
    ensures
        tracker.snapshot().len() == tracker.entries.len(),
        tracker.snapshot()[i].0 == tracker.entries[i].sent_at,
        tracker.entries[i].latency is None ==> tracker.snapshot()[i].1 == tracker.pending_latency,
        tracker.entries[i].latency matches Some(delay) ==> tracker.snapshot()[i].1 == delay,
{
}

/// The bounded window of awaited probes.
pub struct Tracker {
    entries: VecDeque<Probe>,
    max_queue_size: usize,
    pending_latency: u64,
}

impl View for Tracker {
    type V = TrackerView;

    closed spec fn view(&self) -> TrackerView {
        TrackerView {
            entries: self.entries@,
            max_queue_size: self.max_queue_size as nat,
            pending_latency: self.pending_latency,
        }
    }
}

/// `VecDeque`'s index operator on the left of an assignment
/// (`IndexMut::index_mut`): the element at `index` becomes `probe`, the others
/// stay. It panics where `index` is out of bounds.
#[verifier::external_body]
fn store(queue: &mut VecDeque<Probe>, index: usize, probe: Probe)
    requires
        index < old(queue)@.len(),
    ensures
        final(queue)@ == old(queue)@.update(index as int, probe),
{
    queue[index] = probe;
}

impl Tracker {
    /// The invariant of the type: the memory bound holds.
    pub open spec fn wf(&self) -> bool {
        self@.bounded()
    }

    /// A tracker that keeps at most `max_queue_size` probes and reports
    /// `pending_latency` for each one without a reply.
    pub fn new(max_queue_size: usize, pending_latency: u64) -> (tracker: Tracker)
        ensures
            tracker.wf(),
            tracker@.entries == Seq::<Probe>::empty(),
            tracker@.max_queue_size == max_queue_size,
            tracker@.pending_latency == pending_latency,
    {
        Tracker { entries: VecDeque::new(), max_queue_size, pending_latency }
    }

    /// The number of probes kept.
    pub fn len(&self) -> (len: usize)
        ensures
            len == self@.entries.len(),
    {
        self.entries.len()
    }

    /// Whether no probe is kept.
    pub fn is_empty(&self) -> (empty: bool)
        ensures
            empty == (self@.entries.len() == 0),
    {
        self.entries.len() == 0
    }

    /// The most probes that are ever kept.
    pub fn max_queue_size(&self) -> (size: usize)
        ensures
            size == self@.max_queue_size,
    {
        self.max_queue_size
    }

    /// The latency reported for a probe without a reply.
    pub fn pending_latency(&self) -> (latency: u64)
        ensures
            latency == self@.pending_latency,
    {
        self.pending_latency
    }

    /// The sequence number of the newest probe kept.
    pub fn tail_sequence(&self) -> (tail: Option<u64>)
        ensures
            tail == self@.tail_sequence(),
    {
        let len: usize = self.entries.len();
        if len == 0 {
            None
        } else {
            Some(self.entries[len - 1].sequence)
        }
    }

    /// The probe at `index`, counted from the oldest.
    pub fn get(&self, index: usize) -> (probe: Option<Probe>)
        ensures
            probe == if index < self@.entries.len() {
                Some(self@.entries[index as int])
            } else {
                None
            },
    {
        if index < self.entries.len() {
            Some(self.entries[index])
        } else {
            None
        }
    }

    /// Whether `sequence` continues the window.
    pub fn continues(&self, sequence: u64) -> (fits: bool)
        ensures
            fits == self@.continues(sequence),
    {
        match self.tail_sequence() {
            Some(tail) => tail < u64::MAX && sequence == tail + 1,
            None => true,
        }
    }

    /// Where the probe `sequence` stands, counted from the oldest, if it is
    /// still in the window.
    pub fn position_of(&self, sequence: u64) -> (at: Option<usize>)
        ensures
            match at {
                Some(at) => self@.position_of(sequence) == Some(at as int),
                None => self@.position_of(sequence) is None,
            },
    {
        let len: usize = self.entries.len();
        if len == 0 {
            return None;
        }
        let tail: u64 = self.entries[len - 1].sequence;
        if sequence > tail {
            return None;
        }
        let age: u64 = tail - sequence;
        if age >= len as u64 {
            return None;
        }
        Some(len - (age as usize) - 1)
    }

    /// Records that the probe `sequence` was sent at `sent_at`. Where the
    /// window is full the oldest probe is dropped first.
    pub fn record_sent(&mut self, sequence: u64, sent_at: u128)
        requires
            old(self).wf(),
        ensures
            final(self).wf(),
            final(self)@ == old(self)@.record_sent(sequence, sent_at),
    {
        if self.max_queue_size == 0 {
            return ;
        }
        if self.entries.len() >= self.max_queue_size {
            self.entries.pop_front();
        }
        self.entries.push_back(Probe { sequence, sent_at, latency: None });
    }

    /// Matches a reply to the probe `sequence`, seen at `observed_at`. The
    /// first reply to a probe sets its latency to `observed_at - sent_at`;
    /// any other reply changes nothing. Returns whether a latency was set.
    pub fn resolve(&mut self, sequence: u64, observed_at: u128) -> (resolved: bool)
        requires
            old(self).wf(),
        ensures
            final(self).wf(),
            resolved == old(self)@.resolvable(sequence, observed_at),
            final(self)@ == old(self)@.resolve(sequence, observed_at),
    {
        let at: usize = match self.position_of(sequence) {
            Some(at) => at,
            None => {
                return false;
            },
        };
        let probe = self.entries[at];
        if probe.latency.is_some() || observed_at < probe.sent_at {
            return false;
        }
        let delay: u128 = observed_at - probe.sent_at;
        if delay > u64::MAX as u128 {
            return false;
        }
        store(&mut self.entries, at, Probe { latency: Some(delay as u64), ..probe });
        true
    }

    /// A copy of what a report reads: send time and reported latency of each
    /// probe kept, oldest first.
    pub fn snapshot(&self) -> (history: Vec<(u128, u64)>)
        ensures
            history@ == self@.snapshot(),
    {
        let mut history: Vec<(u128, u64)> = Vec::new();
        let mut i: usize = 0;
        while i < self.entries.len()
            invariant
                i <= self.entries@.len(),
                history@ =~= self@.snapshot().subrange(0, i as int),
            decreases self.entries@.len() - i,
        {
            let probe = self.entries[i];
            let latency: u64 = match probe.latency {
                Some(delay) => delay,
                None => self.pending_latency,
            };
            history.push((probe.sent_at, latency));
            i += 1;
        }
        history
    }
}

} // verus!
