//! Receiver for the HomeWizard 433 MHz protocol.
//!
//! A frame is sent as pulses of a base time `T` (the high half of every pulse
//! lasts `T`):
//!
//! ```text
//!         _   _
//! '0':   | |_| |_____   (T high, T low, T high, 5T low)
//!         _       _
//! '1':   | |_____| |_   (T high, 5T low, T high, T low)
//! ```
//!
//! - start pulse: 1T high, 10T low
//! - 26 bits address, 1 group bit, 1 on/off/dim bit, 4 bits unit
//! - stop pulse: 1T high, 40T low
//!
//! The decoder is told about every edge of the received signal: the level the
//! line has just taken and how long it kept the other level before. A falling
//! edge measures a high half, which always lasts `T`; the decoder derives its
//! thresholds from it. A rising edge measures a pause, which carries the data.
use vstd::prelude::*;

verus! {

use crate::code::{shift_in, register_of, code_of, lemma_register_push, run, lemma_run_append};

/// Level of the receiver's input line.
#[derive(Clone, Copy, Debug)]
pub enum Level {
    Low,
    High,
}

/// Where the decoder stands in the frame.
#[derive(Clone, Copy, Debug)]
pub enum State {
    /// Between two bits: the next pause starts a bit.
    InSync,
    /// One short pause seen: a '0' if a long pause follows.
    Probably0,
    /// One long pause seen: a '1' if a short pause follows.
    Probably1,
    /// Not inside a frame.
    Nothing,
}

/// What the decoder knows: the bits received so far and the pause thresholds.
pub struct HomeWizardState {
    pub buffer: u32,
    pub state: State,
    pub short_max: u32,
    pub long_max: u32,
    pub sync_max: u32,
}

/// Decoder of HomeWizard frames, fed edge by edge.
pub struct HomeWizardDecoder {
    recv_buff: u32,
    state: State,
    pulse_len_short_max: u32,
    pulse_len_long_max: u32,
    pulse_len_sync_max: u32,
}

impl View for HomeWizardDecoder {
    type V = HomeWizardState;

    closed spec fn view(&self) -> HomeWizardState {
        HomeWizardState {
            buffer: self.recv_buff,
            state: self.state,
            short_max: self.pulse_len_short_max,
            long_max: self.pulse_len_long_max,
            sync_max: self.pulse_len_sync_max,
        }
    }
}

/// A high half lasting `duration` calibrates the decoder when it lies strictly
/// between these bounds (microseconds).
pub open spec fn is_base_time(duration: u32) -> bool {
    240 < duration < 280
}

/// The effect of one edge: the new state, and the frame it completes, if any.
///
/// A pause shorter than `short_max` is short, one shorter than `long_max` long,
/// one shorter than `sync_max` a start pulse; a longer pause ends the frame, which
/// is delivered if the decoder stood between two bits. A high half of base time
/// `T` sets the thresholds to `3T`, `7T` and `12T`.
pub open spec fn hw_step(s: HomeWizardState, edge: (Level, u32)) -> (HomeWizardState, Option<u32>) {
    let duration = edge.1;
    match edge.0 {
        Level::High => {
            if duration < s.short_max {
                match s.state {
                    State::InSync => (HomeWizardState { state: State::Probably0, ..s }, None),
                    State::Probably1 => (
                        HomeWizardState { buffer: shift_in(s.buffer, true), state: State::InSync, ..s },
                        None,
                    ),
                    _ => (HomeWizardState { state: State::Nothing, ..s }, None),
                }
            } else if duration < s.long_max {
                match s.state {
                    State::InSync => (HomeWizardState { state: State::Probably1, ..s }, None),
                    State::Probably0 => (
                        HomeWizardState { buffer: shift_in(s.buffer, false), state: State::InSync, ..s },
                        None,
                    ),
                    _ => (HomeWizardState { state: State::Nothing, ..s }, None),
                }
            } else if duration < s.sync_max {
                (HomeWizardState { buffer: 0, state: State::InSync, ..s }, None)
            } else {
                (
                    HomeWizardState { state: State::Nothing, ..s },
                    if s.state is InSync { Some(s.buffer) } else { None },
                )
            }
        },
        Level::Low => {
            if is_base_time(duration) {
                (
                    HomeWizardState {
                        short_max: (duration * 3) as u32,
                        long_max: (duration * 7) as u32,
                        sync_max: (duration * 12) as u32,
                        ..s
                    },
                    None,
                )
            } else {
                (s, None)
            }
        },
    }
}

/// A decoder that has seen nothing yet: no thresholds, outside any frame.
pub open spec fn hw_initial() -> HomeWizardState {
    HomeWizardState { buffer: 0, state: State::Nothing, short_max: 0, long_max: 0, sync_max: 0 }
}

impl HomeWizardDecoder {
    /// A decoder that has seen nothing yet: no thresholds, outside any frame.
    pub fn new() -> (d: HomeWizardDecoder)
        ensures
            d@ == hw_initial(),
    {
        HomeWizardDecoder {
            recv_buff: 0,
            state: State::Nothing,
            pulse_len_short_max: 0,
            pulse_len_long_max: 0,
            pulse_len_sync_max: 0,
        }
    }

    /// Take one edge: `pin_val` is the level the line has just taken, `duration`
    /// how long (microseconds) it held the other level. When the edge completes a
    /// frame, its code is written to `recv_val`; otherwise `recv_val` is left alone.
    pub fn interrupt(&mut self, pin_val: Level, duration: u32, recv_val: &mut u32)
        ensures
            final(self)@ == hw_step(old(self)@, (pin_val, duration)).0,
            *final(recv_val) == (match hw_step(old(self)@, (pin_val, duration)).1 {
                Some(code) => code,
                None => *old(recv_val),
            }),
    {
        match pin_val {
            Level::High => {
                // rising edge: the duration is a pause, which carries the signal
                if duration < self.pulse_len_short_max {
                    self.state = match self.state {
                        // first pause of a '0'
                        State::InSync => State::Probably0,
                        // second pause of a '1'
                        State::Probably1 => {
                            self.recv_buff = (self.recv_buff << 1u32) | 1u32;
                            State::InSync
                        },
                        _ => State::Nothing,
                    };
                } else if duration < self.pulse_len_long_max {
                    self.state = match self.state {
                        // first pause of a '1'
                        State::InSync => State::Probably1,
                        // second pause of a '0'
                        State::Probably0 => {
                            self.recv_buff = self.recv_buff << 1u32;
                            State::InSync
                        },
                        _ => State::Nothing,
                    };
                } else if duration < self.pulse_len_sync_max {
                    // start pulse
                    self.state = State::InSync;
                    self.recv_buff = 0;
                } else {
                    // longer than everything: after a complete bit this ends the frame
                    if let State::InSync = self.state {
                        *recv_val = self.recv_buff;
                    }
                    self.state = State::Nothing;
                }
            },
            Level::Low => {
                // falling edge: the duration is a high half, which always lasts T
                if 240 < duration && duration < 280 {
                    self.pulse_len_short_max = duration * 3;
                    self.pulse_len_long_max = duration * 7;
                    self.pulse_len_sync_max = duration * 12;
                }
            },
        }
    }
}

/// The four edges by which one bit arrives, for base time `t`.
pub open spec fn bit_edges(t: u32, bit: bool) -> Seq<(Level, u32)> {
    let short = t;
    let long = (5 * t) as u32;
    if bit {
        seq![(Level::Low, t), (Level::High, long), (Level::Low, t), (Level::High, short)]
    } else {
        seq![(Level::Low, t), (Level::High, short), (Level::Low, t), (Level::High, long)]
    }
}

/// The edges by which the bits arrive, one bit after the other.
pub open spec fn bits_edges(t: u32, bits: Seq<bool>) -> Seq<(Level, u32)>
    decreases bits.len(),
{
    if bits.len() == 0 {
        Seq::empty()
    } else {
        bits_edges(t, bits.drop_last()) + bit_edges(t, bits.last())
    }
}

/// The edges of a whole frame carrying `bits` with base time `t`: start pulse,
/// the bits, stop pulse.
pub open spec fn frame_edges(t: u32, bits: Seq<bool>) -> Seq<(Level, u32)> {
    seq![(Level::Low, t), (Level::High, (10 * t) as u32)] + bits_edges(t, bits) + seq![
        (Level::Low, t),
        (Level::High, (40 * t) as u32),
    ]
}

/// The decoder as a machine over edges.
pub open spec fn hw_machine() -> spec_fn(HomeWizardState, (Level, u32)) -> (HomeWizardState, Option<u32>) {
    |s: HomeWizardState, e: (Level, u32)| hw_step(s, e)
}

/// Thresholds derived from base time `t`, standing between two bits.
pub open spec fn calibrated_in_sync(s: HomeWizardState, t: u32) -> bool {
    &&& s.state is InSync
    &&& s.short_max == 3 * t
    &&& s.long_max == 7 * t
    &&& s.sync_max == 12 * t
}

proof fn lemma_bits_arrive(s: HomeWizardState, t: u32, bits: Seq<bool>)
    requires
        240 < t < 280,
        calibrated_in_sync(s, t),
        s.buffer == 0,
    ensures
        calibrated_in_sync(run(hw_machine(), s, bits_edges(t, bits)).0, t),
        run(hw_machine(), s, bits_edges(t, bits)).0.buffer == register_of(bits),
        run(hw_machine(), s, bits_edges(t, bits)).1 is None,
    decreases bits.len(),
{
    let m = hw_machine();
    reveal_with_fuel(run, 5);
    if bits.len() == 0 {
        assert(code_of(bits) == 0);
    } else {
        let prefix = bits.drop_last();
        lemma_bits_arrive(s, t, prefix);
        lemma_run_append(m, s, bits_edges(t, prefix), bit_edges(t, bits.last()));
        let mid = run(m, s, bits_edges(t, prefix)).0;
        let e = bit_edges(t, bits.last());
        assert(e.drop_last().drop_last().drop_last().drop_last() =~= Seq::<(Level, u32)>::empty());
        assert(e.drop_last().drop_last().drop_last() =~= seq![e[0]]);
        assert(e.drop_last().drop_last() =~= seq![e[0], e[1]]);
        assert(e.drop_last() =~= seq![e[0], e[1], e[2]]);
        lemma_register_push(prefix, bits.last());
        assert(prefix.push(bits.last()) =~= bits);
    }
}

/// A well-formed frame is decoded to the bits it carries, whatever state the
/// decoder was in before: the code delivered is the last 32 bits of the frame.
pub proof fn lemma_frame_decodes(start: HomeWizardState, t: u32, bits: Seq<bool>)
    requires
        240 < t < 280,
    ensures
        run(hw_machine(), start, frame_edges(t, bits)).1 == Some(register_of(bits)),
{
    let m = hw_machine();
    reveal_with_fuel(run, 3);
    let head = seq![(Level::Low, t), (Level::High, (10 * t) as u32)];
    let tail = seq![(Level::Low, t), (Level::High, (40 * t) as u32)];
    let body = bits_edges(t, bits);
    assert(head.drop_last().drop_last() =~= Seq::<(Level, u32)>::empty());
    assert(head.drop_last() =~= seq![head[0]]);
    let after_head = run(m, start, head).0;
    assert(calibrated_in_sync(after_head, t) && after_head.buffer == 0);
    lemma_bits_arrive(after_head, t, bits);
    lemma_run_append(m, start, head, body);
    lemma_run_append(m, start, head + body, tail);
    assert(tail.drop_last().drop_last() =~= Seq::<(Level, u32)>::empty());
    assert(tail.drop_last() =~= seq![tail[0]]);
}

/// The thresholds derived from base time `t`.
pub open spec fn calibrated(s: HomeWizardState, t: u32) -> bool {
    &&& s.short_max == 3 * t
    &&& s.long_max == 7 * t
    &&& s.sync_max == 12 * t
}

/// A high half of length `low` keeps the thresholds of base time `t`: it is `t`
/// again, or no base time at all.
pub open spec fn keeps_calibration(t: u32, low: u32) -> bool {
    low == t || !(240 < low < 280)
}

/// The two pauses of one bit fall in the bands of base time `t`: a long pause
/// (`3t` up to `7t`) then a short one (below `3t`) for a 1, the other way round
/// for a 0.
pub open spec fn bit_pauses(t: u32, bit: bool, first: u32, second: u32) -> bool {
    if bit {
        3 * t <= first < 7 * t && second < 3 * t
    } else {
        first < 3 * t && 3 * t <= second < 7 * t
    }
}

/// `edges` are the four edges of `bit`, within the tolerances of base time `t`.
pub open spec fn bit_edges_within(t: u32, bit: bool, edges: Seq<(Level, u32)>) -> bool {
    &&& edges.len() == 4
    &&& edges[0].0 is Low && keeps_calibration(t, edges[0].1)
    &&& edges[1].0 is High
    &&& edges[2].0 is Low && keeps_calibration(t, edges[2].1)
    &&& edges[3].0 is High
    &&& bit_pauses(t, bit, edges[1].1, edges[3].1)
}

/// The groups of edges, one after the other.
pub open spec fn concat_edges(groups: Seq<Seq<(Level, u32)>>) -> Seq<(Level, u32)>
    decreases groups.len(),
{
    if groups.len() == 0 {
        Seq::empty()
    } else {
        concat_edges(groups.drop_last()) + groups.last()
    }
}

proof fn lemma_bits_arrive_within(s: HomeWizardState, t: u32, bits: Seq<bool>, groups: Seq<Seq<(Level, u32)>>)
    requires
        240 < t < 280,
        calibrated(s, t),
        s.state is InSync,
        s.buffer == 0,
        groups.len() == bits.len(),
        forall|j: int| 0 <= j < bits.len() ==> bit_edges_within(t, bits[j], #[trigger] groups[j]),
    ensures
        calibrated(run(hw_machine(), s, concat_edges(groups)).0, t),
        run(hw_machine(), s, concat_edges(groups)).0.state is InSync,
        run(hw_machine(), s, concat_edges(groups)).0.buffer == register_of(bits),
        run(hw_machine(), s, concat_edges(groups)).1 is None,
    decreases bits.len(),
{
    let m = hw_machine();
    reveal_with_fuel(run, 5);
    if bits.len() == 0 {
        assert(code_of(bits) == 0);
    } else {
        let prefix = bits.drop_last();
        let gs = groups.drop_last();
        assert forall|j: int| 0 <= j < prefix.len() implies bit_edges_within(t, prefix[j], #[trigger] gs[j]) by {
            assert(bit_edges_within(t, bits[j], groups[j]));
        }
        lemma_bits_arrive_within(s, t, prefix, gs);
        let e = groups.last();
        assert(bit_edges_within(t, bits.last(), e));
        lemma_run_append(m, s, concat_edges(gs), e);
        assert(e.drop_last().drop_last().drop_last().drop_last() =~= Seq::<(Level, u32)>::empty());
        assert(e.drop_last().drop_last().drop_last() =~= seq![e[0]]);
        assert(e.drop_last().drop_last() =~= seq![e[0], e[1]]);
        assert(e.drop_last() =~= seq![e[0], e[1], e[2]]);
        lemma_register_push(prefix, bits.last());
        assert(prefix.push(bits.last()) =~= bits);
    }
}

/// A high half of base time `t` and a start pause put any decoder between two
/// bits, with the thresholds of `t` and an empty buffer.
proof fn lemma_start(start: HomeWizardState, t: u32, sync: u32)
    requires
        240 < t < 280,
        7 * t <= sync < 12 * t,
    ensures
        ({
            let r = run(hw_machine(), start, seq![(Level::Low, t), (Level::High, sync)]);
            &&& calibrated(r.0, t)
            &&& r.0.state is InSync
            &&& r.0.buffer == 0
            &&& r.1 is None
        }),
{
    reveal_with_fuel(run, 3);
    let head = seq![(Level::Low, t), (Level::High, sync)];
    assert(head.drop_last().drop_last() =~= Seq::<(Level, u32)>::empty());
    assert(head.drop_last() =~= seq![head[0]]);
}

/// A broken bit takes a decoder that stands between two bits out of the frame.
proof fn lemma_broken_bit(s: HomeWizardState, t: u32, e: Seq<(Level, u32)>)
    requires
        240 < t < 280,
        calibrated(s, t),
        s.state is InSync,
        broken_bit_edges(t, e),
    ensures
        run(hw_machine(), s, e).0.state is Nothing,
        calibrated(run(hw_machine(), s, e).0, t),
        run(hw_machine(), s, e).1 is None,
{
    reveal_with_fuel(run, 5);
    assert(e.drop_last().drop_last().drop_last().drop_last() =~= Seq::<(Level, u32)>::empty());
    assert(e.drop_last().drop_last().drop_last() =~= seq![e[0]]);
    assert(e.drop_last().drop_last() =~= seq![e[0], e[1]]);
    assert(e.drop_last() =~= seq![e[0], e[1], e[2]]);
}

/// Decoding with tolerances: after a high half of base time `t`, a start pause
/// (`7t` up to `12t`), the edges of each bit within the bands of `t` (high halves
/// that keep the calibration, pauses as `bit_pauses` says), a high half that
/// keeps the calibration and a final pause of at least `12t` deliver the last
/// 32 bits of the frame, most significant first, whatever state the decoder was
/// in before. The decoder then stands outside any frame, so the next code needs
/// a new start pause.
pub proof fn lemma_frame_decodes_within_tolerance(
    start: HomeWizardState,
    t: u32,
    sync: u32,
    bits: Seq<bool>,
    groups: Seq<Seq<(Level, u32)>>,
    low: u32,
    end: u32,
)
    requires
        240 < t < 280,
        7 * t <= sync < 12 * t,
        groups.len() == bits.len(),
        forall|j: int| 0 <= j < bits.len() ==> bit_edges_within(t, bits[j], #[trigger] groups[j]),
        keeps_calibration(t, low),
        end >= 12 * t,
    ensures
        ({
            let edges = seq![(Level::Low, t), (Level::High, sync)] + concat_edges(groups) + seq![
                (Level::Low, low),
                (Level::High, end),
            ];
            &&& run(hw_machine(), start, edges).1 == Some(register_of(bits))
            &&& run(hw_machine(), start, edges).0.state is Nothing
        }),
{
    let m = hw_machine();
    reveal_with_fuel(run, 3);
    let head = seq![(Level::Low, t), (Level::High, sync)];
    let tail = seq![(Level::Low, low), (Level::High, end)];
    let body = concat_edges(groups);
    lemma_start(start, t, sync);
    let after_head = run(m, start, head).0;
    lemma_bits_arrive_within(after_head, t, bits, groups);
    lemma_run_append(m, start, head, body);
    lemma_run_append(m, start, head + body, tail);
    assert(tail.drop_last().drop_last() =~= Seq::<(Level, u32)>::empty());
    assert(tail.drop_last() =~= seq![tail[0]]);
}

/// Outside a frame, no code comes without a start pause: while the high halves
/// keep the calibration of `t` and no pause lies in the start band (`7t` up to
/// `12t`), the decoder stays outside any frame and delivers nothing.
pub proof fn lemma_no_code_without_start(s: HomeWizardState, t: u32, edges: Seq<(Level, u32)>)
    requires
        240 < t < 280,
        calibrated(s, t),
        s.state is Nothing,
        forall|i: int| 0 <= i < edges.len() && (#[trigger] edges[i]).0 is Low ==> keeps_calibration(t, edges[i].1),
        forall|i: int| 0 <= i < edges.len() && (#[trigger] edges[i]).0 is High ==> !(7 * t <= edges[i].1 < 12 * t),
    ensures
        run(hw_machine(), s, edges).1 is None,
        run(hw_machine(), s, edges).0.state is Nothing,
        calibrated(run(hw_machine(), s, edges).0, t),
    decreases edges.len(),
{
    if edges.len() > 0 {
        let rest = edges.drop_last();
        assert forall|i: int| 0 <= i < rest.len() && (#[trigger] rest[i]).0 is Low implies keeps_calibration(
            t,
            rest[i].1,
        ) by {
            assert(rest[i] == edges[i]);
        }
        assert forall|i: int| 0 <= i < rest.len() && (#[trigger] rest[i]).0 is High implies !(7 * t <= rest[i].1
            < 12 * t) by {
            assert(rest[i] == edges[i]);
        }
        lemma_no_code_without_start(s, t, rest);
        assert(edges.last() == edges[edges.len() - 1]);
    }
}

/// `edges` are the four edges of a broken bit: the high halves keep the
/// calibration and both pauses are shorter than a start pause, but they form
/// neither a 0 nor a 1.
pub open spec fn broken_bit_edges(t: u32, edges: Seq<(Level, u32)>) -> bool {
    &&& edges.len() == 4
    &&& edges[0].0 is Low && keeps_calibration(t, edges[0].1)
    &&& edges[1].0 is High && edges[1].1 < 7 * t
    &&& edges[2].0 is Low && keeps_calibration(t, edges[2].1)
    &&& edges[3].0 is High && edges[3].1 < 7 * t
    &&& !bit_pauses(t, true, edges[1].1, edges[3].1)
    &&& !bit_pauses(t, false, edges[1].1, edges[3].1)
}

/// A frame with a broken bit delivers nothing: after a start and some good
/// bits, a broken bit drops the frame, and nothing that follows without a new
/// start pause (whatever its final pause) delivers a code.
pub proof fn lemma_broken_frame_delivers_nothing(
    start: HomeWizardState,
    t: u32,
    sync: u32,
    bits: Seq<bool>,
    groups: Seq<Seq<(Level, u32)>>,
    broken: Seq<(Level, u32)>,
    rest: Seq<(Level, u32)>,
)
    requires
        240 < t < 280,
        7 * t <= sync < 12 * t,
        groups.len() == bits.len(),
        forall|j: int| 0 <= j < bits.len() ==> bit_edges_within(t, bits[j], #[trigger] groups[j]),
        broken_bit_edges(t, broken),
        forall|i: int| 0 <= i < rest.len() && (#[trigger] rest[i]).0 is Low ==> keeps_calibration(t, rest[i].1),
        forall|i: int| 0 <= i < rest.len() && (#[trigger] rest[i]).0 is High ==> !(7 * t <= rest[i].1 < 12 * t),
    ensures
        run(
            hw_machine(),
            start,
            seq![(Level::Low, t), (Level::High, sync)] + concat_edges(groups) + broken + rest,
        ).1 is None,
{
    let m = hw_machine();
    let head = seq![(Level::Low, t), (Level::High, sync)];
    let body = concat_edges(groups);
    lemma_start(start, t, sync);
    let after_head = run(m, start, head).0;
    lemma_bits_arrive_within(after_head, t, bits, groups);
    lemma_run_append(m, start, head, body);
    let after_body = run(m, start, head + body).0;
    lemma_broken_bit(after_body, t, broken);
    lemma_run_append(m, start, head + body, broken);
    let after_broken = run(m, start, head + body + broken).0;
    lemma_no_code_without_start(after_broken, t, rest);
    lemma_run_append(m, start, head + body + broken, rest);
}

/// A decoder that has never measured a high half delivers nothing: with no
/// thresholds every pause ends the frame, and the decoder never stands between
/// two bits. This holds from the start (`hw_initial`) as long as no high half is
/// a base time.
pub proof fn lemma_uncalibrated_delivers_nothing(s: HomeWizardState, edges: Seq<(Level, u32)>)
    requires
        s.short_max == 0 && s.long_max == 0 && s.sync_max == 0,
        !(s.state is InSync),
        forall|i: int| 0 <= i < edges.len() && (#[trigger] edges[i]).0 is Low ==> !(240 < edges[i].1 < 280),
    ensures
        run(hw_machine(), s, edges).1 is None,
        !(run(hw_machine(), s, edges).0.state is InSync),
        run(hw_machine(), s, edges).0.short_max == 0,
        run(hw_machine(), s, edges).0.long_max == 0,
        run(hw_machine(), s, edges).0.sync_max == 0,
    decreases edges.len(),
{
    if edges.len() > 0 {
        let rest = edges.drop_last();
        assert forall|i: int| 0 <= i < rest.len() && (#[trigger] rest[i]).0 is Low implies !(240 < rest[i].1
            < 280) by {
            assert(rest[i] == edges[i]);
        }
        lemma_uncalibrated_delivers_nothing(s, rest);
        assert(edges.last() == edges[edges.len() - 1]);
    }
}

/// A pause of at least twelve base times ends the frame: it delivers the
/// buffer only when the decoder stood between two bits, not in the middle of a
/// bit or outside a frame, and leaves the decoder outside any frame with its
/// thresholds and buffer kept.
pub proof fn lemma_end_pause(s: HomeWizardState, t: u32, pause: u32)
    requires
        240 < t < 280,
        calibrated(s, t),
        pause >= 12 * t,
    ensures
        hw_step(s, (Level::High, pause)).1 == (if s.state is InSync { Some(s.buffer) } else { None::<u32> }),
        hw_step(s, (Level::High, pause)).0 == (HomeWizardState { state: State::Nothing, ..s }),
{
}

} // verus!
