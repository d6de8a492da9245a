//! The receiving side as a whole: every edge on the 433 MHz input goes to both
//! decoders, with its duration measured from the previous edge.
use vstd::prelude::*;

verus! {

use crate::home_wizard::{HomeWizardDecoder, HomeWizardState, Level, hw_step, hw_initial};
use crate::rcswitch::{RcSwitchDecoder, RcSwitchState, rc_step, rc_wf, rc_accepts, rc_initial};

/// Edges closer together than this (microseconds) are jitter and are ignored.
pub const JITTER_LIMIT: u32 = 150;

/// What the receiver knows: when the last edge it took came, and both decoders.
pub struct EdgeReceiverState {
    pub last_time: u64,
    pub home_wizard: HomeWizardState,
    pub rc_switch: RcSwitchState,
}

/// Both decoders, fed from one input.
pub struct EdgeReceiver {
    last_time: u64,
    home_wizard: HomeWizardDecoder,
    rc_switch: RcSwitchDecoder,
}

impl View for EdgeReceiver {
    type V = EdgeReceiverState;

    closed spec fn view(&self) -> EdgeReceiverState {
        EdgeReceiverState { last_time: self.last_time, home_wizard: self.home_wizard@, rc_switch: self.rc_switch@ }
    }
}

/// The duration of an edge at `now` after one at `last`, in 32 bits.
pub open spec fn edge_duration(last: u64, now: u64) -> u32 {
    (now - last) as u32
}

/// The receiver can take an edge at `now`: time does not run backwards, and the
/// rc-switch decoder can take the duration.
pub open spec fn edge_accepts(s: EdgeReceiverState, now: u64) -> bool {
    &&& now >= s.last_time
    &&& edge_duration(s.last_time, now) >= JITTER_LIMIT ==> rc_accepts(s.rc_switch, edge_duration(s.last_time, now))
}

/// The state after an edge at `now` that leaves the line at `level`, and the code
/// it completes (0 if none). Jitter is ignored altogether. Otherwise both
/// decoders take the edge; a code from the rc-switch decoder wins over one from
/// the HomeWizard decoder.
pub open spec fn edge_step(s: EdgeReceiverState, level: Level, now: u64) -> (EdgeReceiverState, u32) {
    let duration = edge_duration(s.last_time, now);
    if duration < JITTER_LIMIT {
        (s, 0)
    } else {
        let hw = hw_step(s.home_wizard, (level, duration));
        let rc = rc_step(s.rc_switch, duration);
        (
            EdgeReceiverState { last_time: now, home_wizard: hw.0, rc_switch: rc.0 },
            match rc.1 {
                Some(code) => code,
                None => match hw.1 {
                    Some(code) => code,
                    None => 0,
                },
            },
        )
    }
}

impl EdgeReceiver {
    /// The receiver's invariant.
    pub open spec fn wf(&self) -> bool {
        rc_wf(self@.rc_switch)
    }

    /// A receiver that has seen nothing; time is counted from `now`.
    pub fn new(now: u64) -> (r: EdgeReceiver)
        ensures
            r.wf(),
            r@ == (EdgeReceiverState { last_time: now, home_wizard: hw_initial(), rc_switch: rc_initial() }),
    {
        EdgeReceiver { last_time: now, home_wizard: HomeWizardDecoder::new(), rc_switch: RcSwitchDecoder::new() }
    }

    /// Whether `on_edge` can take an edge at `now`.
    pub fn accepts(&self, now: u64) -> (ok: bool)
        requires
            self.wf(),
        ensures
            ok == edge_accepts(self@, now),
    {
        if now < self.last_time {
            false
        } else {
            let duration = (now - self.last_time) as u32;
            if duration >= JITTER_LIMIT {
                self.rc_switch.accepts(duration)
            } else {
                true
            }
        }
    }

    /// Take an edge at time `now` (microseconds) that leaves the line at `level`.
    /// Returns the code the edge completes, or 0.
    pub fn on_edge(&mut self, level: Level, now: u64) -> (code: u32)
        requires
            old(self).wf(),
            edge_accepts(old(self)@, now),
        ensures
            final(self).wf(),
            final(self)@ == edge_step(old(self)@, level, now).0,
            code == edge_step(old(self)@, level, now).1,
    {
        let duration = (now - self.last_time) as u32;
        if duration < JITTER_LIMIT {
            return 0;
        }
        let mut n_received_value: u32 = 0;
        self.home_wizard.interrupt(level, duration, &mut n_received_value);
        self.rc_switch.interrupt(duration, &mut n_received_value);
        self.last_time = now;
        n_received_value
    }
}

/// An edge in plain terms. Less than 150 µs after the previous one it is
/// jitter: nothing changes and no code comes. Otherwise both decoders take its
/// duration, the time is remembered, and the code is the rc-switch decoder's if
/// it delivers one, else the HomeWizard decoder's, else 0.
pub proof fn lemma_edge_meaning(s: EdgeReceiverState, level: Level, now: u64)
    requires
        now >= s.last_time,
    ensures
        ({
            let duration = (now - s.last_time) as u32;
            let r = edge_step(s, level, now);
            let hw = hw_step(s.home_wizard, (level, duration));
            let rc = rc_step(s.rc_switch, duration);
            &&& duration < 150 ==> r.0 == s && r.1 == 0
            &&& duration >= 150 ==> r.0.last_time == now && r.0.home_wizard == hw.0 && r.0.rc_switch == rc.0
            &&& duration >= 150 && rc.1 is Some ==> r.1 == rc.1->0
            &&& duration >= 150 && rc.1 is None && hw.1 is Some ==> r.1 == hw.1->0
            &&& duration >= 150 && rc.1 is None && hw.1 is None ==> r.1 == 0
        }),
{
}

} // verus!
