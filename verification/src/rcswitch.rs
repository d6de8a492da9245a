//! The rc-switch 433 MHz protocol: a transmitter that turns a code into pulse
//! timings, and a receiver that turns edge timings back into codes.
//!
//! A code is sent most significant bit first. Each bit is one pulse, a high half
//! followed by a low half, whose lengths are multiples of the protocol's pulse
//! length; a sync pulse with a long low half closes the frame. The frame is
//! repeated, and the receiver takes the long low halves as separators between
//! repetitions.
use vstd::prelude::*;

verus! {

use vstd::arithmetic::power2::pow2;
use crate::code::{
    code_bit, register_of, shift_in, low_bits, lemma_register_push, lemma_low_bits_index,
    lemma_code_of_low_bits, run, lemma_run_append,
};

/// Lengths of the high and the low half of a pulse, in pulse lengths.
#[derive(Clone, Copy, Debug)]
pub struct HighLow {
    pub high: u8,
    pub low: u8,
}

/// Timing of one rc-switch protocol.
#[derive(Clone, Copy, Debug)]
pub struct Protocol {
    /// Base unit, microseconds.
    pub pulse_length: u8,
    /// The pulse that closes a frame.
    pub sync_factor: HighLow,
    /// The pulse of a 0 bit.
    pub zero: HighLow,
    /// The pulse of a 1 bit.
    pub one: HighLow,
}

/// Number of protocols this crate knows.
pub const PROTOCOL_COUNT: usize = 1;

/// The known protocols, by index.
pub open spec fn protocol_table(index: int) -> Protocol {
    Protocol {
        pulse_length: 250,
        sync_factor: HighLow { high: 1, low: 31 },
        zero: HighLow { high: 1, low: 3 },
        one: HighLow { high: 3, low: 1 },
    }
}

/// The protocol with the given index.
pub fn protocol(index: usize) -> (p: Protocol)
    requires
        index < PROTOCOL_COUNT,
    ensures
        p == protocol_table(index as int),
{
    Protocol {
        pulse_length: 250,
        sync_factor: HighLow { high: 1, low: 31 },
        zero: HighLow { high: 1, low: 3 },
        one: HighLow { high: 3, low: 1 },
    }
}

/// Absolute difference of two durations.
pub open spec fn spec_diff(a: int, b: int) -> int {
    if a >= b {
        a - b
    } else {
        b - a
    }
}

/// The distance between two durations, `|a - b|`.
pub fn diff(a: u32, b: u32) -> (r: u32)
    ensures
        r == spec_diff(a as int, b as int),
{
    if a >= b {
        a - b
    } else {
        b - a
    }
}

// ------------------------------------------------------------------------------
// Transmitter
// ------------------------------------------------------------------------------

/// One pulse on the line: high for `high_us`, then low for `low_us` microseconds.
#[derive(Clone, Copy, Debug)]
pub struct Pulse {
    pub high_us: u32,
    pub low_us: u32,
}

/// The timing of `pulse` under protocol `p`.
pub open spec fn pulse_of(p: Protocol, pulse: HighLow) -> Pulse {
    Pulse {
        high_us: (p.pulse_length * pulse.high) as u32,
        low_us: (p.pulse_length * pulse.low) as u32,
    }
}

/// The pulse that carries `bit`.
pub open spec fn bit_pulse(p: Protocol, bit: bool) -> Pulse {
    if bit {
        pulse_of(p, p.one)
    } else {
        pulse_of(p, p.zero)
    }
}

/// One frame: bits `bit_count - 1` down to `0` of `code`, then the sync pulse.
pub open spec fn frame_pulses(p: Protocol, code: u32, bit_count: nat) -> Seq<Pulse> {
    Seq::new(bit_count, |j: int| bit_pulse(p, code_bit(code as nat, (bit_count - 1 - j) as nat))).push(
        pulse_of(p, p.sync_factor),
    )
}

/// `frame`, `times` times over.
pub open spec fn repeated(frame: Seq<Pulse>, times: nat) -> Seq<Pulse>
    decreases times,
{
    if times == 0 {
        Seq::empty()
    } else {
        repeated(frame, (times - 1) as nat) + frame
    }
}

/// What a transmitter with the given settings sends for `code`: the frame,
/// `repeat_count - 1` times.
pub open spec fn send_plan(p: Protocol, repeat_count: u8, code: u32, bit_count: nat) -> Seq<Pulse> {
    repeated(frame_pulses(p, code, bit_count), if repeat_count >= 1 { (repeat_count - 1) as nat } else { 0 })
}

/// Sends codes on one output pin.
pub struct Transmitter {
    protocol: Protocol,
    repeat_count: u8,
    pin: u8,
}

impl Transmitter {
    /// The protocol this transmitter uses.
    pub closed spec fn spec_protocol(&self) -> Protocol {
        self.protocol
    }

    /// How many times (plus one) each frame is sent.
    pub closed spec fn spec_repeat_count(&self) -> u8 {
        self.repeat_count
    }

    /// The output pin.
    pub closed spec fn spec_pin(&self) -> u8 {
        self.pin
    }

    /// A transmitter for protocol number `proto` on output `pin`.
    pub fn new(proto: usize, pin: u8, repeat_count: u8) -> (t: Transmitter)
        requires
            proto < PROTOCOL_COUNT,
        ensures
            t.spec_protocol() == protocol_table(proto as int),
            t.spec_pin() == pin,
            t.spec_repeat_count() == repeat_count,
    {
        Transmitter { protocol: protocol(proto), repeat_count, pin }
    }

    /// The output pin.
    pub fn pin(&self) -> (pin: u8)
        ensures
            pin == self.spec_pin(),
    {
        self.pin
    }

    /// The timings by which the lowest `bit_count` bits of `code` are sent: the bit
    /// at position `bit_count - 1` first, then the one at `bit_count - 2`, and so
    /// on down to bit 0, then the sync pulse; the whole frame is sent
    /// `repeat_count - 1` times. Playing the pulses in order on the pin sends the code.
    pub fn send(&self, code: u32, bit_count: u8) -> (pulses: Vec<Pulse>)
        requires
            bit_count <= 32 || self.spec_repeat_count() <= 1,
        ensures
            pulses@ == send_plan(self.spec_protocol(), self.spec_repeat_count(), code, bit_count as nat),
    {
        let ghost frame = frame_pulses(self.protocol, code, bit_count as nat);
        let ghost frames: nat = if self.repeat_count >= 1 { (self.repeat_count - 1) as nat } else { 0 };
        let mut pulses: Vec<Pulse> = Vec::new();
        let mut n_repeat: u8 = 1;
        while n_repeat < self.repeat_count
            invariant
                1 <= n_repeat,
                n_repeat - 1 <= frames,
                frames == (if self.repeat_count >= 1 { (self.repeat_count - 1) as nat } else { 0 }),
                n_repeat < self.repeat_count ==> n_repeat - 1 < frames,
                self.repeat_count > 1 ==> bit_count <= 32,
                frame == frame_pulses(self.protocol, code, bit_count as nat),
                pulses@ == repeated(frame, (n_repeat - 1) as nat),
            decreases self.repeat_count - n_repeat,
        {
            let ghost before = pulses@;
            let mut i: u8 = bit_count;
            while i > 0
                invariant
                    i <= bit_count <= 32,
                    frame == frame_pulses(self.protocol, code, bit_count as nat),
                    before == repeated(frame, (n_repeat - 1) as nat),
                    pulses@ == before + frame.take(bit_count - i),
                decreases i,
            {
                i = i - 1;
                let bit = code & (1u32 << i) != 0;
                proof {
                    lemma_bit_test(code, i as u32);
                }
                if bit {
                    pulses.push(self.transmit(&self.protocol.one));
                } else {
                    pulses.push(self.transmit(&self.protocol.zero));
                }
                assert(frame.take(bit_count - i) =~= frame.take(bit_count - i - 1).push(
                    frame[bit_count - i - 1],
                ));
            }
            pulses.push(self.transmit(&self.protocol.sync_factor));
            assert(frame.take(bit_count as int).push(frame[bit_count as int]) =~= frame);
            n_repeat = n_repeat + 1;
        }
        pulses
    }

    /// The timing of one pulse.
    fn transmit(&self, pulse: &HighLow) -> (t: Pulse)
        ensures
            t == pulse_of(self.protocol, *pulse),
    {
        let length = self.protocol.pulse_length as u32;
        let high = pulse.high as u32;
        let low = pulse.low as u32;
        assert(length * high <= 255 * 255 && length * low <= 255 * 255) by (nonlinear_arith)
            requires
                length <= 255,
                high <= 255,
                low <= 255,
        ;
        Pulse { high_us: length * high, low_us: length * low }
    }
}

/// Testing `code` against a mask with bit `i` set reads bit `i` of `code`.
proof fn lemma_bit_test(code: u32, i: u32)
    requires
        i < 32,
    ensures
        (code & (1u32 << i) != 0) == code_bit(code as nat, i as nat),
{
    assert((code & (1u32 << i) != 0) == ((code >> i) % 2 == 1)) by (bit_vector)
        requires
            i < 32,
    ;
    vstd::bits::lemma_u32_shr_is_div(code, i);
}

// ------------------------------------------------------------------------------
// Receiver
// ------------------------------------------------------------------------------

/// A low half longer than this (microseconds) separates two repetitions.
pub const SEPARATION_LIMIT: u32 = 4600;

/// Two separations whose lengths differ by less than this are taken to close
/// repetitions of one frame.
pub const SEPARATION_MATCH: u32 = 200;

/// How far (percent of the unit delay) a half may stray from its nominal length.
pub const RECEIVE_TOLERANCE: u32 = 60;

/// Number of edge durations the receiver keeps.
pub const DUR_BUF_SIZE: usize = 67;

/// Frames with no more edges than this are taken for noise: no device sends them.
pub const MIN_CHANGE_COUNT: usize = 7;

/// What the receiver knows: the durations since the last separation (the
/// separation itself first), how many of them there are, and how many matching
/// separations it has seen in a row.
pub struct RcSwitchState {
    pub buffer: Seq<u32>,
    pub change_count: nat,
    pub repeat_count: nat,
}

/// Receiver for rc-switch frames, fed with the duration between two edges.
pub struct RcSwitchDecoder {
    dur_buf: Vec<u32>,
    change_count: usize,
    repeat_count: u8,
}

impl View for RcSwitchDecoder {
    type V = RcSwitchState;

    closed spec fn view(&self) -> RcSwitchState {
        RcSwitchState {
            buffer: self.dur_buf@,
            change_count: self.change_count as nat,
            repeat_count: self.repeat_count as nat,
        }
    }
}

/// The receiver's invariant: a full buffer, a count within it, fewer than two
/// matching separations pending, and an empty start.
pub open spec fn rc_wf(s: RcSwitchState) -> bool {
    &&& s.buffer.len() == DUR_BUF_SIZE
    &&& s.change_count <= DUR_BUF_SIZE
    &&& s.repeat_count < 2
    &&& s.change_count == 0 ==> s.buffer[0] == 0
}

/// The protocol the receiver decodes: the first known one.
pub open spec fn receive_protocol() -> Protocol {
    protocol_table(0)
}

/// The length of one pulse unit, derived from the separation that opened the
/// frame: the separation is the low half of the sync pulse.
pub open spec fn unit_delay(p: Protocol, separation: u32) -> int {
    separation as int / p.sync_factor.low as int
}

/// How far a half may stray from its nominal length.
pub open spec fn delay_tolerance(delay: int) -> int {
    delay * RECEIVE_TOLERANCE / 100
}

/// `actual` lies within `tolerance` of `expected`.
pub open spec fn close_to(actual: u32, expected: int, tolerance: int) -> bool {
    spec_diff(actual as int, expected) < tolerance
}

/// Whether the `k`-th pulse after the separation (durations at `1 + 2k`,
/// `2 + 2k`) lies within tolerance of the nominal pulse `nominal`, under the unit
/// delay the separation implies.
pub open spec fn pair_matches(p: Protocol, buffer: Seq<u32>, k: int, nominal: HighLow) -> bool {
    let delay = unit_delay(p, buffer[0]);
    let tol = delay_tolerance(delay);
    close_to(buffer[1 + 2 * k], delay * nominal.high, tol) && close_to(buffer[2 + 2 * k], delay * nominal.low, tol)
}

/// Whether the `k`-th pulse reads as a 1: it does not match a 0, and matches a 1.
pub open spec fn pair_is_one(p: Protocol, buffer: Seq<u32>, k: int) -> bool {
    !pair_matches(p, buffer, k, p.zero) && pair_matches(p, buffer, k, p.one)
}

/// Whether the `k`-th pulse reads as a bit at all: it matches a 0 or a 1.
pub open spec fn pair_readable(p: Protocol, buffer: Seq<u32>, k: int) -> bool {
    pair_matches(p, buffer, k, p.zero) || pair_matches(p, buffer, k, p.one)
}

/// Whether every pulse in the buffer reads as a bit; a frame with a pulse that
/// matches neither a 0 nor a 1 fails to decode.
pub open spec fn frame_readable(p: Protocol, buffer: Seq<u32>, change_count: nat) -> bool {
    forall|k: int| 0 <= k < pair_count(change_count) ==> #[trigger] pair_readable(p, buffer, k)
}

/// Number of whole pulses among `change_count` durations, the separation first.
pub open spec fn pair_count(change_count: nat) -> nat {
    if change_count >= 1 {
        ((change_count - 1) / 2) as nat
    } else {
        0
    }
}

/// The bits read from the buffer, first pulse first.
pub open spec fn decoded_bits(p: Protocol, buffer: Seq<u32>, change_count: nat) -> Seq<bool> {
    Seq::new(pair_count(change_count), |k: int| pair_is_one(p, buffer, k))
}

/// The code read from the buffer: the last 32 of its bits.
pub open spec fn rc_code(p: Protocol, buffer: Seq<u32>, change_count: nat) -> u32 {
    register_of(decoded_bits(p, buffer, change_count))
}

/// The edge with `duration` is a separation that completes a second repetition,
/// so that the receiver decodes the buffer.
pub open spec fn completes_repetition(s: RcSwitchState, duration: u32) -> bool {
    &&& duration > SEPARATION_LIMIT
    &&& spec_diff(duration as int, s.buffer[0] as int) < SEPARATION_MATCH
    &&& s.repeat_count + 1 == 2
}

/// The receiver can take `duration` without overflow: where it decodes, the
/// tolerance of the unit delay fits 32 bits.
pub open spec fn rc_accepts(s: RcSwitchState, duration: u32) -> bool {
    completes_repetition(s, duration) ==> unit_delay(receive_protocol(), s.buffer[0]) * RECEIVE_TOLERANCE
        <= u32::MAX
}

/// The effect of one edge on the receiver: the new state, and the code it
/// decodes, if any.
///
/// A separation resets the buffer. If its length matches the separation that
/// opened the buffer, it counts as a repetition; the second repetition in a row
/// decodes the buffer, and delivers the code unless the frame was too short or
/// holds a pulse that is neither a 0 nor a 1. The duration is then stored; a
/// full buffer is dropped first.
pub open spec fn rc_step(s: RcSwitchState, duration: u32) -> (RcSwitchState, Option<u32>) {
    let separated = if duration > SEPARATION_LIMIT {
        if spec_diff(duration as int, s.buffer[0] as int) < SEPARATION_MATCH {
            if s.repeat_count + 1 == 2 {
                (
                    RcSwitchState { change_count: 0, repeat_count: 0, ..s },
                    if s.change_count > MIN_CHANGE_COUNT && frame_readable(
                        receive_protocol(),
                        s.buffer,
                        s.change_count,
                    ) {
                        Some(rc_code(receive_protocol(), s.buffer, s.change_count))
                    } else {
                        None
                    },
                )
            } else {
                (RcSwitchState { change_count: 0, repeat_count: s.repeat_count + 1, ..s }, None)
            }
        } else {
            (RcSwitchState { change_count: 0, ..s }, None)
        }
    } else {
        (s, None)
    };
    let t = separated.0;
    let u = if t.change_count >= DUR_BUF_SIZE {
        RcSwitchState { change_count: 0, repeat_count: 0, ..t }
    } else {
        t
    };
    (
        RcSwitchState {
            buffer: u.buffer.update(u.change_count as int, duration),
            change_count: u.change_count + 1,
            ..u
        },
        separated.1,
    )
}

/// The receiver as a machine over edge durations.
pub open spec fn rc_machine() -> spec_fn(RcSwitchState, u32) -> (RcSwitchState, Option<u32>) {
    |s: RcSwitchState, d: u32| rc_step(s, d)
}

/// A receiver that has seen nothing: an empty, zeroed buffer.
pub open spec fn rc_initial() -> RcSwitchState {
    RcSwitchState { buffer: Seq::new(DUR_BUF_SIZE as nat, |i: int| 0u32), change_count: 0, repeat_count: 0 }
}

impl RcSwitchDecoder {
    /// The receiver's invariant.
    pub open spec fn wf(&self) -> bool {
        rc_wf(self@)
    }

    /// A receiver that has seen nothing.
    pub fn new() -> (r: RcSwitchDecoder)
        ensures
            r.wf(),
            r@ == rc_initial(),
    {
        let mut dur_buf: Vec<u32> = Vec::new();
        let mut i: usize = 0;
        while i < DUR_BUF_SIZE
            invariant
                i <= DUR_BUF_SIZE,
                dur_buf@ == Seq::new(i as nat, |j: int| 0u32),
            decreases DUR_BUF_SIZE - i,
        {
            dur_buf.push(0);
            i = i + 1;
        }
        let r = RcSwitchDecoder { dur_buf, change_count: 0, repeat_count: 0 };
        assert(r@ =~= rc_initial());
        r
    }

    /// Whether `interrupt` can take `duration` in the present state.
    pub fn accepts(&self, duration: u32) -> (ok: bool)
        requires
            self.wf(),
        ensures
            ok == rc_accepts(self@, duration),
    {
        if duration > SEPARATION_LIMIT && diff(duration, self.dur_buf[0]) < SEPARATION_MATCH
            && self.repeat_count == 1 {
            let delay = self.dur_buf[0] / (protocol(0).sync_factor.low as u32);
            delay <= u32::MAX / RECEIVE_TOLERANCE
        } else {
            true
        }
    }

    /// Take the duration since the previous edge. When it completes a frame, the
    /// code is written to `recv_val`; otherwise `recv_val` is left alone.
    pub fn interrupt(&mut self, duration: u32, recv_val: &mut u32)
        requires
            old(self).wf(),
            rc_accepts(old(self)@, duration),
        ensures
            final(self).wf(),
            final(self)@ == rc_step(old(self)@, duration).0,
            *final(recv_val) == (match rc_step(old(self)@, duration).1 {
                Some(code) => code,
                None => *old(recv_val),
            }),
    {
        if duration > SEPARATION_LIMIT {
            // A long stretch without a level change: the gap between two
            // repetitions, if it is as long as the gap that opened the buffer.
            if diff(duration, self.dur_buf[0]) < SEPARATION_MATCH {
                let repeats = self.repeat_count + 1;
                if repeats == 2 {
                    let pro = protocol(0);
                    if let Some(code) = self.decode(&pro) {
                        // very short transmissions are noise: no device sends them
                        if self.change_count > MIN_CHANGE_COUNT {
                            *recv_val = code;
                        }
                    }
                    self.repeat_count = 0;
                } else {
                    self.repeat_count = repeats;
                }
            }
            self.change_count = 0;
        }
        if self.change_count >= DUR_BUF_SIZE {
            self.change_count = 0;
            self.repeat_count = 0;
        }
        self.dur_buf.set(self.change_count, duration);
        self.change_count = self.change_count + 1;
    }

    /// Read the code from the buffered durations; fails on a pulse that is
    /// neither a 0 nor a 1.
    fn decode(&self, pro: &Protocol) -> (code: Option<u32>)
        requires
            self.wf(),
            self.change_count >= 1,
            *pro == receive_protocol(),
            unit_delay(receive_protocol(), self.dur_buf@[0]) * RECEIVE_TOLERANCE <= u32::MAX,
        ensures
            code == (if frame_readable(receive_protocol(), self@.buffer, self@.change_count) {
                Some(rc_code(receive_protocol(), self@.buffer, self@.change_count))
            } else {
                None
            }),
    {
        let ghost bits = decoded_bits(*pro, self.dur_buf@, self.change_count as nat);
        let delay = self.dur_buf[0] / (pro.sync_factor.low as u32);
        let tolerance = delay * RECEIVE_TOLERANCE / 100;
        assert(pro.zero.high == 1 && pro.zero.low == 3 && pro.one.high == 3 && pro.one.low == 1);
        assert(delay * 3 <= u32::MAX) by (nonlinear_arith)
            requires
                delay * RECEIVE_TOLERANCE <= u32::MAX,
        ;
        // nominal lengths of the halves of a 0 and of a 1
        let zero_high = delay * pro.zero.high as u32;
        let zero_low = delay * pro.zero.low as u32;
        let one_high = delay * pro.one.high as u32;
        let one_low = delay * pro.one.low as u32;
        let mut code: u32 = 0;
        let mut i: usize = 1;
        let ghost mut k: int = 0;
        while i + 1 < self.change_count
            invariant
                self.wf(),
                *pro == receive_protocol(),
                delay == unit_delay(*pro, self.dur_buf@[0]),
                zero_high == delay * pro.zero.high,
                zero_low == delay * pro.zero.low,
                one_high == delay * pro.one.high,
                one_low == delay * pro.one.low,
                tolerance == delay_tolerance(delay as int),
                bits == decoded_bits(*pro, self.dur_buf@, self.change_count as nat),
                i == 2 * k + 1,
                0 <= k <= bits.len(),
                2 * k + 1 <= self.change_count,
                code == register_of(bits.take(k)),
                forall|x: int| 0 <= x < k ==> #[trigger] pair_readable(*pro, self.dur_buf@, x),
            decreases self.change_count - i,
        {
            let high = self.dur_buf[i];
            let low = self.dur_buf[i + 1];
            let old_code = code;
            code = code << 1u32;
            if diff(high, zero_high) < tolerance && diff(low, zero_low) < tolerance {
                // zero
            } else if diff(high, one_high) < tolerance && diff(low, one_low) < tolerance {
                // one
                code = code | 1u32;
            } else {
                // failed: neither a 0 nor a 1
                assert(!pair_readable(*pro, self.dur_buf@, k));
                return None;
            }
            proof {
                assert(code == shift_in(old_code, bits[k]));
                lemma_register_push(bits.take(k), bits[k]);
                assert(bits.take(k).push(bits[k]) =~= bits.take(k + 1));
                k = k + 1;
            }
            i = i + 2;
        }
        assert(bits.take(k) =~= bits);
        Some(code)
    }
}

// ------------------------------------------------------------------------------
// From transmitter to receiver
// ------------------------------------------------------------------------------

/// The durations a receiver measures while `pulses` are sent: for each pulse the
/// length of its high half (at its falling edge), then of its low half (at the
/// next rising edge).
pub open spec fn pulse_durations(pulses: Seq<Pulse>) -> Seq<u32>
    decreases pulses.len(),
{
    if pulses.len() == 0 {
        Seq::empty()
    } else {
        pulse_durations(pulses.drop_last()) + seq![pulses.last().high_us, pulses.last().low_us]
    }
}

/// Durations `2k` and `2k + 1` of `d` are the halves of `pulse`.
spec fn measured_at(d: Seq<u32>, pulse: Pulse, k: int) -> bool {
    d[2 * k] == pulse.high_us && d[2 * k + 1] == pulse.low_us
}

proof fn lemma_durations_index(pulses: Seq<Pulse>)
    ensures
        pulse_durations(pulses).len() == 2 * pulses.len(),
        forall|k: int|
            0 <= k < pulses.len() ==> #[trigger] measured_at(pulse_durations(pulses), pulses[k], k),
    decreases pulses.len(),
{
    if pulses.len() > 0 {
        let rest = pulses.drop_last();
        lemma_durations_index(rest);
        let d = pulse_durations(pulses);
        assert forall|k: int| 0 <= k < pulses.len() implies #[trigger] measured_at(d, pulses[k], k) by {
            if k < rest.len() {
                assert(pulses[k] == rest[k]);
                assert(measured_at(pulse_durations(rest), rest[k], k));
            }
        }
    }
}

proof fn lemma_durations_append(a: Seq<Pulse>, b: Seq<Pulse>)
    ensures
        pulse_durations(a + b) == pulse_durations(a) + pulse_durations(b),
    decreases b.len(),
{
    if b.len() == 0 {
        assert(a + b =~= a);
        assert(pulse_durations(a) + pulse_durations(b) =~= pulse_durations(a));
    } else {
        lemma_durations_append(a, b.drop_last());
        assert((a + b).drop_last() =~= a + b.drop_last());
        assert((a + b).last() == b.last());
        assert(pulse_durations(a + b) =~= pulse_durations(a) + pulse_durations(b));
    }
}

/// One step keeps the receiver's invariant.
pub proof fn lemma_step_wf(s: RcSwitchState, duration: u32)
    requires
        rc_wf(s),
    ensures
        rc_wf(rc_step(s, duration).0),
        rc_step(s, duration).0.change_count >= 1,
{
}

/// Running keeps the receiver's invariant.
pub proof fn lemma_run_wf(s: RcSwitchState, durations: Seq<u32>)
    requires
        rc_wf(s),
    ensures
        rc_wf(run(rc_machine(), s, durations).0),
    decreases durations.len(),
{
    if durations.len() > 0 {
        lemma_run_wf(s, durations.drop_last());
        lemma_step_wf(run(rc_machine(), s, durations.drop_last()).0, durations.last());
    }
}

/// The separation that closes a frame under the receiver's protocol.
pub open spec fn separation() -> u32 {
    7750
}

/// The receiver has just taken a separation of length `gap`.
pub open spec fn after_separation(s: RcSwitchState, gap: u32) -> bool {
    &&& rc_wf(s)
    &&& s.change_count == 1
    &&& s.buffer[0] == gap
}

/// Whatever the receiver's state, durations that end with a separation leave it
/// just after that separation.
proof fn lemma_ends_with_separation(s: RcSwitchState, durations: Seq<u32>)
    requires
        rc_wf(s),
        durations.len() > 0,
        durations.last() > SEPARATION_LIMIT,
    ensures
        after_separation(run(rc_machine(), s, durations).0, durations.last()),
{
    lemma_run_wf(s, durations.drop_last());
}

/// The `k`-th pulse of a frame of `n` bits, measured as durations `d`, carries
/// bit `n - 1 - k` of `code`.
spec fn carries_bit(d: Seq<u32>, code: u32, n: nat, k: int) -> bool {
    let one = code_bit(code as nat, (n - 1 - k) as nat);
    &&& d[2 * k] == (if one { 750u32 } else { 250u32 })
    &&& d[2 * k + 1] == (if one { 250u32 } else { 750u32 })
}

proof fn lemma_frame_durations(code: u32, n: nat)
    requires
        n <= 32,
    ensures
        ({
            let d = pulse_durations(frame_pulses(receive_protocol(), code, n));
            &&& d.len() == 2 * n + 2
            &&& forall|j: int| 0 <= j < 2 * n + 1 ==> #[trigger] d[j] <= 750
            &&& d[2 * n as int + 1] == separation()
            &&& forall|k: int| 0 <= k < n ==> #[trigger] carries_bit(d, code, n, k)
        }),
{
    let f = frame_pulses(receive_protocol(), code, n);
    let d = pulse_durations(f);
    lemma_durations_index(f);
    assert forall|k: int| 0 <= k < n implies #[trigger] carries_bit(d, code, n, k) by {
        assert(f[k] == bit_pulse(receive_protocol(), code_bit(code as nat, (n - 1 - k) as nat)));
        assert(measured_at(d, f[k], k));
    }
    assert(f[n as int] == pulse_of(receive_protocol(), receive_protocol().sync_factor));
    assert(measured_at(d, f[n as int], n as int));
    assert forall|j: int| 0 <= j < 2 * n + 1 implies #[trigger] d[j] <= 750 by {
        if j < 2 * n {
            let k = j / 2;
            assert(carries_bit(d, code, n, k));
            assert(j == 2 * k || j == 2 * k + 1);
        }
    }
}

/// Feeding the first `j` durations of a frame after a separation only fills the
/// buffer.
proof fn lemma_frame_prefix(s: RcSwitchState, code: u32, n: nat, j: nat)
    requires
        after_separation(s, separation()),
        n <= 32,
        j <= 2 * n + 1,
    ensures
        ({
            let d = pulse_durations(frame_pulses(receive_protocol(), code, n));
            let r = run(rc_machine(), s, d.take(j as int));
            &&& r.1 is None
            &&& rc_wf(r.0)
            &&& r.0.change_count == 1 + j
            &&& r.0.repeat_count == s.repeat_count
            &&& r.0.buffer[0] == separation()
            &&& forall|x: int| 0 <= x < j ==> r.0.buffer[1 + x] == #[trigger] d[x]
        }),
    decreases j,
{
    let d = pulse_durations(frame_pulses(receive_protocol(), code, n));
    lemma_frame_durations(code, n);
    reveal_with_fuel(run, 2);
    if j == 0 {
        assert(d.take(0) =~= Seq::<u32>::empty());
    } else {
        lemma_frame_prefix(s, code, n, (j - 1) as nat);
        assert(d.take(j as int).drop_last() =~= d.take(j - 1));
        assert(d.take(j as int).last() == d[j - 1]);
        assert(d[j - 1] <= 750);
    }
}

/// After a separation, one frame fills the buffer and its closing separation
/// decodes it if the separation before was the second in a row; otherwise it
/// counts as the first.
proof fn lemma_frame_after_separation(s: RcSwitchState, code: u32, n: nat)
    requires
        after_separation(s, separation()),
        3 <= n <= 32,
    ensures
        ({
            let r = run(rc_machine(), s, pulse_durations(frame_pulses(receive_protocol(), code, n)));
            &&& after_separation(r.0, separation())
            &&& if s.repeat_count == 1 {
                r.1 == Some((code as nat % pow2(n)) as u32) && r.0.repeat_count == 0
            } else {
                r.1 is None && r.0.repeat_count == 1
            }
        }),
{
    let p = receive_protocol();
    let d = pulse_durations(frame_pulses(p, code, n));
    lemma_frame_durations(code, n);
    lemma_frame_prefix(s, code, n, 2 * n + 1);
    reveal_with_fuel(run, 2);
    assert(d.take(2 * n as int + 2) =~= d);
    assert(d.drop_last() =~= d.take(2 * n as int + 1));
    let mid = run(rc_machine(), s, d.take(2 * n as int + 1)).0;
    // the closing separation decodes exactly the bits of the frame
    let bits = decoded_bits(p, mid.buffer, mid.change_count);
    assert(unit_delay(p, mid.buffer[0]) == 250);
    assert(delay_tolerance(250) == 150);
    lemma_code_of_low_bits(code as nat, n);
    assert forall|k: int| 0 <= k < n implies bits[k] == low_bits(code as nat, n)[k] by {
        lemma_low_bits_index(code as nat, n, k);
        assert(carries_bit(d, code, n, k));
        assert(mid.buffer[1 + 2 * k] == d[2 * k]);
        assert(mid.buffer[1 + (2 * k + 1)] == d[2 * k + 1]);
    }
    assert(bits =~= low_bits(code as nat, n));
    assert forall|k: int| 0 <= k < pair_count(mid.change_count) implies #[trigger] pair_readable(
        p,
        mid.buffer,
        k,
    ) by {
        assert(carries_bit(d, code, n, k));
        assert(mid.buffer[1 + 2 * k] == d[2 * k]);
        assert(mid.buffer[1 + (2 * k + 1)] == d[2 * k + 1]);
    }
    vstd::arithmetic::power2::lemma_pow2_pos(n);
    vstd::arithmetic::power2::lemma2_to64();
    if n < 32 {
        vstd::arithmetic::power2::lemma_pow2_strictly_increases(n, 32);
    }
    vstd::arithmetic::div_mod::lemma_mod_pos_bound(code as int, pow2(n) as int);
    vstd::arithmetic::div_mod::lemma_small_mod(code as nat % pow2(n), 0x1_0000_0000nat);
}

/// `frames` repetitions of a frame leave the receiver after a separation; once
/// three have arrived, the code has been decoded.
proof fn lemma_repetitions(s: RcSwitchState, code: u32, n: nat, frames: nat)
    requires
        rc_wf(s),
        3 <= n <= 32,
        frames >= 1,
    ensures
        ({
            let r = run(
                rc_machine(),
                s,
                pulse_durations(repeated(frame_pulses(receive_protocol(), code, n), frames)),
            );
            &&& after_separation(r.0, separation())
            &&& frames >= 2 ==> (r.1 == Some((code as nat % pow2(n)) as u32) || r.0.repeat_count == 1)
            &&& frames >= 3 ==> r.1 == Some((code as nat % pow2(n)) as u32)
        }),
    decreases frames,
{
    let f = frame_pulses(receive_protocol(), code, n);
    let before = repeated(f, (frames - 1) as nat);
    lemma_durations_append(before, f);
    lemma_run_append(rc_machine(), s, pulse_durations(before), pulse_durations(f));
    lemma_frame_durations(code, n);
    if frames == 1 {
        assert(before =~= Seq::<Pulse>::empty());
        assert(pulse_durations(before) =~= Seq::<u32>::empty());
        assert(pulse_durations(before) + pulse_durations(f) =~= pulse_durations(f));
        lemma_ends_with_separation(s, pulse_durations(f));
    } else {
        lemma_repetitions(s, code, n, (frames - 1) as nat);
        let mid = run(rc_machine(), s, pulse_durations(before)).0;
        lemma_frame_after_separation(mid, code, n);
    }
}

/// What a transmitter sends, a receiver decodes: when the frame goes out at
/// least three times (a repeat count of at least four), a receiver in any state
/// delivers the code, that is its lowest `bit_count` bits, for frames of 3 to 32
/// bits.
pub proof fn lemma_transmission_received(s: RcSwitchState, repeat_count: u8, code: u32, bit_count: nat)
    requires
        rc_wf(s),
        repeat_count >= 4,
        3 <= bit_count <= 32,
    ensures
        run(
            rc_machine(),
            s,
            pulse_durations(send_plan(receive_protocol(), repeat_count, code, bit_count)),
        ).1 == Some((code as nat % pow2(bit_count)) as u32),
{
    lemma_repetitions(s, code, bit_count, (repeat_count - 1) as nat);
}

/// Durations that separate nothing: each at most 4600 microseconds.
pub open spec fn within_frame(durations: Seq<u32>) -> bool {
    forall|i: int| 0 <= i < durations.len() ==> #[trigger] durations[i] <= 4600
}

/// Under the unit delay that separation `gap` implies (a thirty-first of it),
/// the pulse (`high`, `low`) lies within 60 percent of that delay of the nominal
/// pulse `nominal`.
pub open spec fn matches_pulse(gap: u32, high: u32, low: u32, nominal: HighLow) -> bool {
    let delay = gap as int / 31;
    let tol = delay * 60 / 100;
    -tol < high - delay * nominal.high < tol && -tol < low - delay * nominal.low < tol
}

/// Feeding durations that separate nothing, while they fit the buffer, only
/// appends them to it.
proof fn lemma_fill(s: RcSwitchState, durations: Seq<u32>)
    requires
        rc_wf(s),
        s.change_count >= 1,
        s.change_count + durations.len() <= DUR_BUF_SIZE,
        within_frame(durations),
    ensures
        ({
            let r = run(rc_machine(), s, durations);
            &&& r.1 is None
            &&& rc_wf(r.0)
            &&& r.0.change_count == s.change_count + durations.len()
            &&& r.0.repeat_count == s.repeat_count
            &&& forall|x: int| 0 <= x < s.change_count ==> r.0.buffer[x] == #[trigger] s.buffer[x]
            &&& forall|x: int| 0 <= x < durations.len() ==> r.0.buffer[s.change_count + x] == #[trigger] durations[x]
        }),
    decreases durations.len(),
{
    reveal_with_fuel(run, 2);
    if durations.len() > 0 {
        let rest = durations.drop_last();
        assert forall|i: int| 0 <= i < rest.len() implies #[trigger] rest[i] <= SEPARATION_LIMIT by {
            assert(rest[i] == durations[i]);
        }
        lemma_fill(s, rest);
        let mid = run(rc_machine(), s, rest).0;
        assert(durations.last() == durations[durations.len() - 1]);
        let r = run(rc_machine(), s, durations).0;
        assert forall|x: int| 0 <= x < durations.len() implies r.buffer[s.change_count + x]
            == #[trigger] durations[x] by {
            if x < rest.len() {
                assert(rest[x] == durations[x]);
            }
        }
    }
}

/// Decoding with tolerances. Right after a separation `g0` with no repetition
/// pending, durations `qs` that separate nothing (up to 66), a separation `g`
/// that matches `g0` (the first repetition), the durations `ps` of a frame (7 to
/// 66 of them, none separating), and a separation `d` that matches `g` (the
/// second repetition): if every pulse of the frame lies within tolerance of a 0
/// or a 1 under the unit delay `g / 31`, the code delivered is the frame's bits,
/// most significant first, modulo `2^32`, each bit 1 exactly when its pulse is
/// not within tolerance of a 0. An odd last duration (the sync pulse's high half)
/// is no bit. The receiver then stands right after `d` with no repetition
/// pending, so the next code needs two more matching separations.
pub proof fn lemma_gapped_frame_decodes(
    s: RcSwitchState,
    g0: u32,
    qs: Seq<u32>,
    g: u32,
    ps: Seq<u32>,
    d: u32,
)
    requires
        after_separation(s, g0),
        s.repeat_count == 0,
        qs.len() <= 66,
        within_frame(qs),
        g > 4600,
        -200 < g - g0 < 200,
        7 <= ps.len() <= 66,
        within_frame(ps),
        d > 4600,
        -200 < d - g < 200,
        forall|j: int|
            0 <= j < ps.len() / 2 ==> matches_pulse(g, #[trigger] ps[2 * j], ps[2 * j + 1], HighLow { high: 1, low: 3 })
                || matches_pulse(g, ps[2 * j], ps[2 * j + 1], HighLow { high: 3, low: 1 }),
    ensures
        ({
            let r = run(rc_machine(), s, qs + seq![g] + ps + seq![d]);
            &&& r.1 == Some(
                register_of(
                    Seq::new(
                        (ps.len() / 2) as nat,
                        |j: int| !matches_pulse(g, ps[2 * j], ps[2 * j + 1], HighLow { high: 1, low: 3 }),
                    ),
                ),
            )
            &&& after_separation(r.0, d)
            &&& r.0.repeat_count == 0
        }),
{
    let m = rc_machine();
    let p = receive_protocol();
    reveal_with_fuel(run, 2);
    // the durations before the first repetition
    lemma_fill(s, qs);
    let a = run(m, s, qs).0;
    assert(a.buffer[0] == s.buffer[0]);
    let qg = qs + seq![g];
    assert(qg.drop_last() =~= qs);
    assert(qg.last() == g);
    let b = run(m, s, qg).0;
    assert(run(m, s, qg).1 is None);
    assert(after_separation(b, g) && b.repeat_count == 1);
    // the frame
    lemma_fill(b, ps);
    lemma_run_append(m, s, qg, ps);
    let c = run(m, s, qg + ps).0;
    assert(c.buffer[0] == b.buffer[0]);
    let all = qg + ps + seq![d];
    assert(all.drop_last() =~= qg + ps);
    assert(all.last() == d);
    // the second repetition decodes the frame
    let bits = decoded_bits(p, c.buffer, c.change_count);
    let expected = Seq::new(
        (ps.len() / 2) as nat,
        |j: int| !matches_pulse(g, ps[2 * j], ps[2 * j + 1], receive_protocol().zero),
    );
    assert forall|j: int| 0 <= j < bits.len() implies bits[j] == expected[j] by {
        assert(c.buffer[1 + 2 * j] == ps[2 * j]);
        assert(c.buffer[1 + (2 * j + 1)] == ps[2 * j + 1]);
        assert(matches_pulse(g, ps[2 * j], ps[2 * j + 1], receive_protocol().zero) || matches_pulse(
            g,
            ps[2 * j],
            ps[2 * j + 1],
            receive_protocol().one,
        ));
    }
    assert(bits =~= expected);
    assert forall|j: int| 0 <= j < pair_count(c.change_count) implies #[trigger] pair_readable(
        p,
        c.buffer,
        j,
    ) by {
        assert(c.buffer[1 + 2 * j] == ps[2 * j]);
        assert(c.buffer[1 + (2 * j + 1)] == ps[2 * j + 1]);
        assert(matches_pulse(g, ps[2 * j], ps[2 * j + 1], receive_protocol().zero) || matches_pulse(
            g,
            ps[2 * j],
            ps[2 * j + 1],
            receive_protocol().one,
        ));
    }
}

/// How long `pulses` take to send, microseconds.
pub open spec fn total_time(pulses: Seq<Pulse>) -> nat
    decreases pulses.len(),
{
    if pulses.len() == 0 {
        0
    } else {
        total_time(pulses.drop_last()) + pulses.last().high_us as nat + pulses.last().low_us as nat
    }
}

proof fn lemma_total_time_append(a: Seq<Pulse>, b: Seq<Pulse>)
    ensures
        total_time(a + b) == total_time(a) + total_time(b),
    decreases b.len(),
{
    if b.len() == 0 {
        assert(a + b =~= a);
    } else {
        lemma_total_time_append(a, b.drop_last());
        assert((a + b).drop_last() =~= a + b.drop_last());
        assert((a + b).last() == b.last());
    }
}

proof fn lemma_frame_time(code: u32, n: nat, k: nat)
    requires
        k <= n,
    ensures
        total_time(frame_pulses(receive_protocol(), code, n).take(k as int)) == 1000 * k,
    decreases k,
{
    let f = frame_pulses(receive_protocol(), code, n);
    if k == 0 {
        assert(f.take(0) =~= Seq::<Pulse>::empty());
    } else {
        lemma_frame_time(code, n, (k - 1) as nat);
        assert(f.take(k as int).drop_last() =~= f.take(k - 1));
        assert(f.take(k as int).last() == f[k - 1]);
        assert(f[k - 1] == bit_pulse(receive_protocol(), code_bit(code as nat, (n - 1 - (k - 1)) as nat)));
    }
}

proof fn lemma_repeated_shape(frame: Seq<Pulse>, times: nat)
    ensures
        repeated(frame, times).len() == times * frame.len(),
        total_time(repeated(frame, times)) == times * total_time(frame),
    decreases times,
{
    if times > 0 {
        let before = repeated(frame, (times - 1) as nat);
        lemma_repeated_shape(frame, (times - 1) as nat);
        lemma_total_time_append(before, frame);
        assert(repeated(frame, times) == before + frame);
        assert((before + frame).len() == before.len() + frame.len());
        let t1 = (times - 1) as nat;
        let len = frame.len();
        let time = total_time(frame);
        assert(t1 * len + len == times * len && t1 * time + time == times * time) by (nonlinear_arith)
            requires
                t1 + 1 == times,
        ;
    } else {
        let len = frame.len();
        let time = total_time(frame);
        assert(times * len == 0 && times * time == 0) by (nonlinear_arith)
            requires
                times == 0,
        ;
    }
}

/// The time a transmission takes does not depend on the code: every bit is one
/// pulse of four units, the sync pulse is 32 units, so `bit_count` bits go out
/// as `bit_count + 1` pulses (two pin writes each) lasting `1000 * bit_count +
/// 8000` microseconds, `repeat_count - 1` times over.
pub proof fn lemma_send_timing(repeat_count: u8, code: u32, bit_count: nat)
    ensures
        ({
            let plan = send_plan(receive_protocol(), repeat_count, code, bit_count);
            let frames: nat = if repeat_count >= 1 { (repeat_count - 1) as nat } else { 0 };
            &&& plan.len() == frames * (bit_count + 1)
            &&& total_time(plan) == frames * (1000 * bit_count + 8000)
        }),
{
    let f = frame_pulses(receive_protocol(), code, bit_count);
    lemma_frame_time(code, bit_count, bit_count);
    assert(f.take(bit_count as int).push(f[bit_count as int]) =~= f);
    assert(f.drop_last() =~= f.take(bit_count as int));
    lemma_repeated_shape(f, if repeat_count >= 1 { (repeat_count - 1) as nat } else { 0 });
}

proof fn lemma_repeated_index(frame: Seq<Pulse>, times: nat, f: int, j: int)
    requires
        0 <= f < times,
        0 <= j < frame.len(),
    ensures
        f * frame.len() + j < repeated(frame, times).len(),
        repeated(frame, times)[f * frame.len() + j] == frame[j],
    decreases times,
{
    let len = frame.len() as int;
    let before = repeated(frame, (times - 1) as nat);
    lemma_repeated_shape(frame, (times - 1) as nat);
    lemma_repeated_shape(frame, times);
    assert(repeated(frame, times) == before + frame);
    let t1 = (times - 1) as int;
    if f < t1 {
        lemma_repeated_index(frame, (times - 1) as nat, f, j);
    } else {
        assert(f * len == t1 * len);
    }
    assert(f * len + j < times * len) by (nonlinear_arith)
        requires
            0 <= f < times,
            0 <= j < len,
    ;
}

/// The transmitter's plan in plain numbers, under the first protocol: the
/// frame goes out `repeat_count - 1` times; in each, position `j` before the
/// last holds 750 µs high then 250 µs low when bit `bit_count - 1 - j` of the
/// code is 1, and 250 µs then 750 µs when it is 0; the last position holds the
/// sync pulse, 250 µs high then 7750 µs low.
pub proof fn lemma_send_meaning(repeat_count: u8, code: u32, bit_count: nat, f: int, j: int)
    requires
        0 <= f < repeat_count - 1,
        0 <= j <= bit_count,
    ensures
        ({
            let plan = send_plan(receive_protocol(), repeat_count, code, bit_count);
            let at = f * (bit_count + 1) + j;
            &&& 0 <= at < plan.len()
            &&& plan[at] == if j == bit_count {
                Pulse { high_us: 250, low_us: 7750 }
            } else if (code as int / pow2((bit_count - 1 - j) as nat) as int) % 2 == 1 {
                Pulse { high_us: 750, low_us: 250 }
            } else {
                Pulse { high_us: 250, low_us: 750 }
            }
        }),
{
    let frame = frame_pulses(receive_protocol(), code, bit_count);
    lemma_repeated_index(frame, (repeat_count - 1) as nat, f, j);
    assert(frame.len() == bit_count + 1);
}

/// One duration in plain numbers. Up to 4600 µs it is stored after the others
/// (a full buffer of 67 is dropped first, with any pending repetition) and
/// nothing is delivered. Longer, it is a separation and opens a new buffer:
/// unless it is within 200 µs of the separation that opened the old one,
/// repetitions are not counted; the first such repetition is only counted; the
/// second delivers the old buffer's code, if the frame had more than 7 edges and
/// every pulse in it was a 0 or a 1, and starts counting afresh.
pub proof fn lemma_rc_step_meaning(s: RcSwitchState, d: u32)
    requires
        rc_wf(s),
    ensures
        ({
            let r = rc_step(s, d);
            let matching = -200 < d - s.buffer[0] < 200;
            &&& d <= 4600 && s.change_count < 67 ==> r.1 is None && r.0.repeat_count == s.repeat_count
                && r.0.change_count == s.change_count + 1 && r.0.buffer == s.buffer.update(s.change_count as int, d)
            &&& d <= 4600 && s.change_count == 67 ==> r.1 is None && r.0.repeat_count == 0 && r.0.change_count
                == 1 && r.0.buffer == s.buffer.update(0, d)
            &&& d > 4600 ==> r.0.change_count == 1 && r.0.buffer == s.buffer.update(0, d)
            &&& d > 4600 && !matching ==> r.1 is None && r.0.repeat_count == s.repeat_count
            &&& d > 4600 && matching && s.repeat_count == 0 ==> r.1 is None && r.0.repeat_count == 1
            &&& d > 4600 && matching && s.repeat_count == 1 ==> r.0.repeat_count == 0 && r.1 == (if s.change_count
                > 7 && frame_readable(receive_protocol(), s.buffer, s.change_count) {
                Some(rc_code(receive_protocol(), s.buffer, s.change_count))
            } else {
                None::<u32>
            })
        }),
{
}

} // verus!
