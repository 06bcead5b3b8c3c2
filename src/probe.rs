use vstd::prelude::*;

use crate::collector::{Sample, SampleCollector};
use crate::message::Message;

verus! {

/// The number of warmup rounds before `n` measured ones: `⌈n / 10⌉`.
pub open spec fn warmup_count(n: int) -> int {
    (n + 9) / 10
}

/// The number of warmup rounds before `iterations` measured ones, a tenth
/// rounded up.
pub fn warmup_rounds(iterations: usize) -> (r: usize)
    ensures
        r == warmup_count(iterations as int),
        r <= iterations,
{
    let q = iterations / 10;
    if iterations % 10 == 0 {
        q
    } else {
        q + 1
    }
}

/// What the probe asks of the adapters next.
#[derive(Clone, Copy, Debug, PartialEq, Eq, Structural)]
pub enum ProbeAction {
    /// Time one message of request id `id` against the loopback agent.
    MeasureLoop { id: u64 },
    /// Time one message of request id `id` against the remote agent.
    MeasureWire { id: u64 },
    /// All rounds are done: dump and report.
    Finish,
}

/// The decisions of the probe: warmup rounds whose timings are dropped, then
/// measured rounds. A round times the loopback agent first (always during
/// warmup, and afterwards when enabled) and the remote agent second; a
/// measured round records the pair.
pub struct ProbeDriver {
    msg_size: usize,
    warmup: usize,
    total: usize,
    loopback: bool,
    round: usize,
    loop_rtt: Option<u64>,
    collector: SampleCollector,
}

impl ProbeDriver {
    pub closed spec fn msg_size(&self) -> usize {
        self.msg_size
    }

    /// The number of warmup rounds.
    pub closed spec fn warmup(&self) -> nat {
        self.warmup as nat
    }

    /// The number of measured rounds.
    pub closed spec fn total(&self) -> nat {
        self.total as nat
    }

    /// Whether each round times the loopback agent too.
    pub closed spec fn loopback(&self) -> bool {
        self.loopback
    }

    /// The rounds done so far, warmup included.
    pub closed spec fn round(&self) -> nat {
        self.round as nat
    }

    /// The loopback timing of the current round, once taken.
    pub closed spec fn pending_loop(&self) -> Option<u64> {
        self.loop_rtt
    }

    /// The collector the measured rounds go to.
    pub closed spec fn records(&self) -> SampleCollector {
        self.collector
    }

    /// The number of rounds, warmup included.
    pub open spec fn rounds(&self) -> nat {
        self.warmup() + self.total()
    }

    /// The request id of round `r`: warmup rounds count from zero, and so do
    /// measured rounds.
    pub open spec fn round_id(&self, r: nat) -> u64 {
        if r < self.warmup() {
            r as u64
        } else {
            (r - self.warmup()) as u64
        }
    }

    /// How many measured rounds are done.
    pub open spec fn measured(&self) -> nat {
        if self.round() > self.warmup() {
            (self.round() - self.warmup()) as nat
        } else {
            0
        }
    }

    /// Whether round `r` times the loopback agent: every warmup round does,
    /// and a measured one when loopback timing is on.
    pub open spec fn times_loop(&self, r: nat) -> bool {
        r < self.warmup() || self.loopback()
    }

    /// What the probe asks for next.
    pub open spec fn next(&self) -> ProbeAction {
        if self.round() >= self.rounds() {
            ProbeAction::Finish
        } else if self.times_loop(self.round()) && self.pending_loop() is None {
            ProbeAction::MeasureLoop { id: self.round_id(self.round()) }
        } else {
            ProbeAction::MeasureWire { id: self.round_id(self.round()) }
        }
    }

    pub open spec fn wf(&self) -> bool {
        &&& self.round() <= self.rounds()
        &&& self.rounds() <= usize::MAX
        &&& self.records().samples().len() == self.measured()
        &&& (!self.times_loop(self.round()) ==> self.pending_loop() is None)
        &&& (self.round() == self.rounds() ==> self.pending_loop() is None)
    }

    /// A probe of `iterations` measured rounds of `msg_size`-byte messages,
    /// after `⌈iterations / 10⌉` warmup rounds, recording into an empty
    /// collector that dumps to `filename`.
    pub fn new(msg_size: usize, iterations: usize, loopback: bool, filename: &str) -> (r: Self)
        requires
            iterations + warmup_count(iterations as int) <= usize::MAX,
        ensures
            r.wf(),
            r.msg_size() == msg_size,
            r.warmup() == warmup_count(iterations as int),
            r.total() == iterations,
            r.loopback() == loopback,
            r.round() == 0,
            r.pending_loop() is None,
            r.records().samples() == Seq::<Sample>::empty(),
            r.records().size() == iterations,
            r.records().file_name() == filename@,
    {
        let warmup = warmup_rounds(iterations);
        ProbeDriver {
            msg_size,
            warmup,
            total: iterations,
            loopback,
            round: 0,
            loop_rtt: None,
            collector: SampleCollector::new(iterations as u64, filename),
        }
    }

    /// What the probe asks for next.
    pub fn next_action(&self) -> (r: ProbeAction)
        requires
            self.wf(),
        ensures
            r == self.next(),
    {
        if self.round >= self.warmup + self.total {
            return ProbeAction::Finish;
        }
        let id = if self.round < self.warmup {
            self.round as u64
        } else {
            (self.round - self.warmup) as u64
        };
        if (self.round < self.warmup || self.loopback) && self.loop_rtt.is_none() {
            ProbeAction::MeasureLoop { id }
        } else {
            ProbeAction::MeasureWire { id }
        }
    }

    /// The single-message batch of a round with request id `id`.
    pub fn batch(&self, id: u64) -> (r: Vec<Message>)
        ensures
            r@.len() == 1,
            r@[0].id() == id,
            r@[0].bytes() == Seq::new(self.msg_size() as nat, |i: int| 0u8),
    {
        vec![Message::new(self.msg_size, id)]
    }

    /// Takes the loopback timing of the current round.
    pub fn on_loop_rtt(&mut self, rtt: u64)
        requires
            old(self).wf(),
            old(self).next() is MeasureLoop,
        ensures
            final(self).wf(),
            final(self).pending_loop() == Some(rtt),
            final(self).round() == old(self).round(),
            final(self).records() == old(self).records(),
            final(self).next() == (ProbeAction::MeasureWire {
                id: old(self).round_id(old(self).round()),
            }),
            final(self).msg_size() == old(self).msg_size(),
            final(self).warmup() == old(self).warmup(),
            final(self).total() == old(self).total(),
            final(self).loopback() == old(self).loopback(),
    {
        self.loop_rtt = Some(rtt);
    }

    /// Takes the wire timing of the current round, which ends it. A measured
    /// round records `(wire, loop)`, with a loop of zero when the loopback
    /// agent was not timed; a warmup round records nothing.
    pub fn on_wire_rtt(&mut self, rtt: u64)
        requires
            old(self).wf(),
            old(self).next() is MeasureWire,
        ensures
            final(self).wf(),
            final(self).round() == old(self).round() + 1,
            final(self).pending_loop() is None,
            final(self).records().samples() == if old(self).round() >= old(self).warmup() {
                old(self).records().samples().push(
                    Sample {
                        wire_rtt: rtt,
                        loop_rtt: match old(self).pending_loop() {
                            Some(l) => l,
                            None => 0,
                        },
                    },
                )
            } else {
                old(self).records().samples()
            },
            final(self).records().size() == old(self).records().size(),
            final(self).records().file_name() == old(self).records().file_name(),
            final(self).msg_size() == old(self).msg_size(),
            final(self).warmup() == old(self).warmup(),
            final(self).total() == old(self).total(),
            final(self).loopback() == old(self).loopback(),
    {
        if self.round >= self.warmup {
            let loop_rtt = match self.loop_rtt {
                Some(l) => l,
                None => 0,
            };
            self.collector.insert((rtt, loop_rtt));
        }
        self.loop_rtt = None;
        self.round = self.round + 1;
    }

    /// The collector the measured rounds went to.
    pub fn collector(&self) -> (r: &SampleCollector)
        ensures
            *r == self.records(),
    {
        &self.collector
    }

    /// Ends the probe, handing over its collector.
    pub fn into_collector(self) -> (r: SampleCollector)
        ensures
            r == self.records(),
    {
        self.collector
    }
}

/// Warmup rounds are dropped: when the probe finishes, its collector holds
/// exactly one sample per measured round, `iterations` in all, though
/// `iterations + ⌈iterations / 10⌉` wire rounds were timed.
pub proof fn lemma_probe_records_measured_rounds(d: ProbeDriver)
    requires
        d.wf(),
        d.next() is Finish,
    ensures
        d.records().samples().len() == d.total(),
        d.round() == d.warmup() + d.total(),
{
}

} // verus!
