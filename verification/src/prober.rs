//! One prober: the sequence counter and the tracker behind it.
//!
//! The caller owns the clock, the timer and the sockets. On each tick it asks
//! for the next probe and sends what it gets; for each datagram that arrives
//! it hands the bytes over. Numbers are given out in order and recorded
//! before the payload is handed out, so a reply never names a probe that the
//! tracker has not seen.

use crate::codec::{decode, decoded_payload, encode, encoded_payload};
use crate::config::Config;
use crate::report::{
    group_by_minute, report_of, report_view, MinuteStats, LAST_SECOND_OF_9999, MICROS_PER_SECOND,
};
use crate::tracker::{lemma_position_finds_sequence, lemma_record_sent_consecutive, Tracker, TrackerView};
use vstd::prelude::*;

verus! {

/// The latency reported for a probe without a reply, in microseconds: one
/// second.
pub const MAX_LATENCY_MICROS: u64 = 1_000_000;

/// What became of a datagram that arrived.
#[derive(Debug, Clone, Copy, PartialEq, Eq)]
pub enum ReplyOutcome {
    /// The datagram is no probe: it is shorter than a payload's fixed part.
    Malformed,
    /// The datagram is the first reply to a probe that is still kept.
    Resolved {
        /// The number of the probe.
        sequence: u64,
        /// The send time that the datagram carries.
        sent_at: u128,
        /// The delay between sending and seeing the reply, in microseconds.
        latency: u64,
    },
    /// The datagram names a probe that has left the window, was never sent,
    /// already has a reply, or was sent after the reply was seen.
    Unmatched {
        /// The number that the datagram names.
        sequence: u64,
        /// The send time that the datagram carries.
        sent_at: u128,
    },
}

/// The prober as a mathematical value.
pub struct ProberView {
    /// The window of awaited probes.
    pub tracker: TrackerView,
    /// The number of the next probe; `None` once all numbers are used up.
    pub next_sequence: Option<u64>,
}

impl ProberView {
    /// The invariant: the window is bounded, its numbers are consecutive, and
    /// the next number continues it.
    pub open spec fn wf(self) -> bool {
        &&& self.tracker.bounded()
        &&& self.tracker.consecutive()
        &&& match self.next_sequence {
            Some(next) => self.tracker.continues(next),
            None => true,
        }
    }

    /// The number that follows `sequence`, if there is one.
    pub open spec fn successor(sequence: u64) -> Option<u64> {
        if sequence < u64::MAX {
            Some((sequence + 1) as u64)
        } else {
            None
        }
    }

    /// The prober after a tick at `sent_at`: the next number is recorded and
    /// the counter moves on. Nothing changes once the numbers are used up.
    pub open spec fn tick(self, sent_at: u128) -> ProberView {
        match self.next_sequence {
            Some(next) => ProberView {
                tracker: self.tracker.record_sent(next, sent_at),
                next_sequence: Self::successor(next),
            },
            None => self,
        }
    }

    /// What becomes of `datagram` when it is seen at `observed_at`.
    pub open spec fn outcome(self, datagram: Seq<u8>, observed_at: u128) -> ReplyOutcome {
        match decoded_payload(datagram) {
            Ok((sequence, sent_at)) => if self.tracker.resolvable(sequence, observed_at) {
                let at = self.tracker.position_of(sequence).unwrap();
                ReplyOutcome::Resolved {
                    sequence,
                    sent_at,
                    latency: (observed_at - self.tracker.entries[at].sent_at) as u64,
                }
            } else {
                ReplyOutcome::Unmatched { sequence, sent_at }
            },
            Err(_) => ReplyOutcome::Malformed,
        }
    }

    /// The prober after `datagram` was seen at `observed_at`.
    pub open spec fn receive(self, datagram: Seq<u8>, observed_at: u128) -> ProberView {
        match decoded_payload(datagram) {
            Ok((sequence, _)) => ProberView {
                tracker: self.tracker.resolve(sequence, observed_at),
                ..self
            },
            Err(_) => self,
        }
    }
}

/// The sequence counter and the tracker of one prober.
pub struct Prober {
    tracker: Tracker,
    next_sequence: u64,
    exhausted: bool,
}

impl View for Prober {
    type V = ProberView;

    closed spec fn view(&self) -> ProberView {
        ProberView {
            tracker: self.tracker@,
            next_sequence: if self.exhausted {
                None
            } else {
                Some(self.next_sequence)
            },
        }
    }
}

impl Prober {
    /// The invariant of the type.
    pub open spec fn wf(&self) -> bool {
        self@.wf()
    }

    /// A prober that has sent nothing: its first probe gets the number 0. It
    /// keeps at most `max_queue_size` probes and reports `pending_latency`
    /// for each one without a reply.
    pub fn new(max_queue_size: usize, pending_latency: u64) -> (prober: Prober)
        ensures
            prober.wf(),
            prober@.next_sequence == Some(0u64),
            prober@.tracker.entries == Seq::<crate::tracker::Probe>::empty(),
            prober@.tracker.max_queue_size == max_queue_size,
            prober@.tracker.pending_latency == pending_latency,
    {
        Prober { tracker: Tracker::new(max_queue_size, pending_latency), next_sequence: 0, exhausted: false }
    }

    /// A prober that has sent nothing, with the window size of `config` and
    /// `MAX_LATENCY_MICROS` as the pending latency.
    pub fn from_config(config: &Config) -> (prober: Prober)
        ensures
            prober.wf(),
            prober@.next_sequence == Some(0u64),
            prober@.tracker.entries == Seq::<crate::tracker::Probe>::empty(),
            prober@.tracker.max_queue_size == config.max_queue_size,
            prober@.tracker.pending_latency == MAX_LATENCY_MICROS,
    {
        Prober::new(config.max_queue_size, MAX_LATENCY_MICROS)
    }

    /// The tracker, to read.
    pub fn tracker(&self) -> (tracker: &Tracker)
        requires
            self.wf(),
        ensures
            tracker@ == self@.tracker,
            tracker.wf(),
    {
        &self.tracker
    }

    /// The number of the next probe; `None` once all numbers are used up.
    pub fn next_sequence(&self) -> (next: Option<u64>)
        ensures
            next == self@.next_sequence,
    {
        if self.exhausted {
            None
        } else {
            Some(self.next_sequence)
        }
    }

    /// Gives the next probe its number and records it as sent at `sent_at`.
    /// Numbers start at 0 and go up by one. There is no number once all are
    /// used up.
    pub fn next_probe(&mut self, sent_at: u128) -> (sequence: Option<u64>)
        requires
            old(self).wf(),
        ensures
            final(self).wf(),
            final(self)@ == old(self)@.tick(sent_at),
            sequence == old(self)@.next_sequence,
    {
        if self.exhausted {
            return None;
        }
        let sequence: u64 = self.next_sequence;
        proof {
            lemma_record_sent_consecutive(self.tracker@, sequence, sent_at);
        }
        self.tracker.record_sent(sequence, sent_at);
        if sequence < u64::MAX {
            self.next_sequence = sequence + 1;
        } else {
            self.exhausted = true;
        }
        Some(sequence)
    }

    /// One tick of the timer at `sent_at`: gives the next probe its number,
    /// records it, and hands out the number and the payload of `packet_size`
    /// bytes to send. There is no probe once all numbers are used up.
    pub fn on_tick(&mut self, sent_at: u128, packet_size: usize) -> (probe: Option<(u64, Vec<u8>)>)
        requires
            old(self).wf(),
        ensures
            final(self).wf(),
            final(self)@ == old(self)@.tick(sent_at),
            match old(self)@.next_sequence {
                Some(next) => probe matches Some((sequence, payload)) && sequence == next
                    && payload@ == encoded_payload(next, sent_at, packet_size as nat),
                None => probe is None,
            },
    {
        match self.next_probe(sent_at) {
            Some(sequence) => Some((sequence, encode(sequence, sent_at, packet_size))),
            None => None,
        }
    }

    /// One datagram that arrived, seen at `observed_at`: reads it as a probe
    /// and matches it to the probe that it answers. Only the first reply to a
    /// probe that is still kept sets a latency; everything else leaves the
    /// prober as it was.
    pub fn on_datagram(&mut self, datagram: &[u8], observed_at: u128) -> (outcome: ReplyOutcome)
        requires
            old(self).wf(),
        ensures
            final(self).wf(),
            final(self)@ == old(self)@.receive(datagram@, observed_at),
            outcome == old(self)@.outcome(datagram@, observed_at),
            !(outcome is Resolved) ==> final(self)@ == old(self)@,
    {
        match decode(datagram) {
            Ok((sequence, sent_at)) => {
                let at: Option<usize> = self.tracker.position_of(sequence);
                let resolved: bool = self.tracker.resolve(sequence, observed_at);
                if resolved {
                    let probe = self.tracker.get(at.unwrap()).unwrap();
                    ReplyOutcome::Resolved { sequence, sent_at, latency: probe.latency.unwrap() }
                } else {
                    ReplyOutcome::Unmatched { sequence, sent_at }
                }
            },
            Err(_) => ReplyOutcome::Malformed,
        }
    }

    /// The current report: the per-minute summary of the probes kept.
    pub fn report(&self) -> (report: Option<Vec<MinuteStats>>)
        requires
            self.wf(),
        ensures
            report_view(report) == report_of(self@.tracker.snapshot()),
            (forall|i: int|
                0 <= i < self@.tracker.entries.len() ==> (#[trigger] self@.tracker.entries[i]).sent_at
                    / MICROS_PER_SECOND <= LAST_SECOND_OF_9999) ==> report is Some,
    {
        let history = self.tracker.snapshot();
        group_by_minute(&history)
    }
}

/// In a prober a reply is matched exactly if some probe kept carries the
/// number it names, has no latency yet, and was sent no later than the reply
/// was seen and no more than `u64::MAX` microseconds before.
pub proof fn lemma_reply_finds_its_probe(prober: ProberView, sequence: u64, observed_at: u128)
    requires
        prober.wf(),
    ensures
        prober.tracker.resolvable(sequence, observed_at) <==> exists|i: int|
            0 <= i < prober.tracker.entries.len() && {
                let probe = #[trigger] prober.tracker.entries[i];
                &&& probe.sequence == sequence
                &&& probe.latency is None
                &&& probe.sent_at <= observed_at
                &&& observed_at - probe.sent_at <= u64::MAX
            },
{
    lemma_position_finds_sequence(prober.tracker, sequence);
}

/// Ticks and datagrams keep the invariant of a prober, and with it the
/// memory bound.
pub proof fn lemma_steps_keep_invariant(
    prober: ProberView,
    sent_at: u128,
    datagram: Seq<u8>,
    observed_at: u128,
)
    requires
        prober.wf(),
    ensures
        prober.tick(sent_at).wf(),
        prober.receive(datagram, observed_at).wf(),
{
    match prober.next_sequence {
        Some(next) => {
            lemma_record_sent_consecutive(prober.tracker, next, sent_at);
        },
        None => {},
    }
    match decoded_payload(datagram) {
        Ok((sequence, _)) => {
            crate::tracker::lemma_resolve_keeps_window(prober.tracker, sequence, observed_at);
        },
        Err(_) => {},
    }
}

} // verus!
