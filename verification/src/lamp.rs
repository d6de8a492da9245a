//! The lamp: a dimmable radio lamp with a warm (red) tint, driven by step
//! commands over 433 MHz, and the reactions to a wall switch and to network
//! commands.
//!
//! The lamp cannot be told a level: it only understands "one step warmer",
//! "one step colder", "one step brighter", "one step darker", "on" and "off".
//! `LampStatus` keeps track of where the lamp stands and turns a wanted level
//! into the steps that reach it. The codes to send are collected in order; the
//! caller transmits them. Tint and brightness run from 0 to 15; a warmer or
//! colder step also makes the lamp brighter.
use vstd::prelude::*;

verus! {

use vstd::arithmetic::power2::pow2;
use crate::code::run;
use crate::rcswitch::{
    Transmitter, RcSwitchState, protocol_table, rc_wf, rc_machine, pulse_durations, send_plan, receive_protocol,
    lemma_transmission_received,
};

/// The lamp's address: every code for the lamp is this plus a command.
pub const LAMP_ID: u32 = 14434000;

/// The highest code that belongs to the lamp.
pub const LAMP_ID_LAST: u32 = 14434999;

/// Command: off.
pub const CMD_OFF: u32 = 611;

/// Command: on.
pub const CMD_ON: u32 = 755;

/// Command: one step warmer (and brighter).
pub const CMD_WARMER: u32 = 800;

/// Command: one step colder (and brighter).
pub const CMD_COLDER: u32 = 608;

/// Command: one step darker.
pub const CMD_DARKER: u32 = 620;

/// Command: one step brighter.
pub const CMD_BRIGHTER: u32 = 572;

/// How many times (plus one) each lamp code goes out.
pub const TRANSMIT_REPEAT_COUNT: u8 = 7;

/// Number of bits of a lamp code on the air.
pub const CODE_BIT_COUNT: u8 = 24;

/// Highest tint and brightness level.
pub const MAX_LEVEL: u8 = 15;

/// Code of the wall switch's "off" button.
pub const WALL_SWITCH_OFF: u32 = 3314352130;

/// Code of the wall switch's "on" button.
pub const WALL_SWITCH_ON: u32 = 3314352146;

/// Where the lamp stands.
pub struct LampState {
    pub bright: u8,
    pub red: u8,
    pub on: bool,
}

/// What a `LampStatus` holds: the lamp's state, the codes waiting to be sent,
/// and the transmitter to send them with.
pub struct LampView {
    pub state: LampState,
    pub sent: Seq<u32>,
    pub transmitter: Transmitter,
}

/// Knowledge of the lamp's state, and the codes that bring the lamp there.
pub struct LampStatus {
    bright: u8,
    red: u8,
    on: bool,
    con: Transmitter,
    outbox: Vec<u32>,
}

impl View for LampStatus {
    type V = LampView;

    closed spec fn view(&self) -> LampView {
        LampView {
            state: LampState { bright: self.bright, red: self.red, on: self.on },
            sent: self.outbox@,
            transmitter: self.con,
        }
    }
}

/// A level after `steps` steps up, each capped at `MAX_LEVEL`.
pub open spec fn brightened(level: u8, steps: nat) -> u8 {
    if steps == 0 {
        level
    } else if level + steps > MAX_LEVEL {
        MAX_LEVEL
    } else {
        (level + steps) as u8
    }
}

/// A level after one step down, stopping at zero.
pub open spec fn darkened(level: u8) -> u8 {
    if level > 0 {
        (level - 1) as u8
    } else {
        0
    }
}

/// Number of steps between two levels.
pub open spec fn level_steps(from: u8, to: u8) -> nat {
    if to > from {
        (to - from) as nat
    } else {
        (from - to) as nat
    }
}

/// The code of `cmd`, `times` times.
pub open spec fn commands(cmd: u32, times: nat) -> Seq<u32> {
    Seq::new(times, |i: int| (LAMP_ID + cmd) as u32)
}

/// The state after setting the tint to `new`.
pub open spec fn after_set_red(s: LampState, new: u8) -> LampState {
    LampState { red: new, bright: brightened(s.bright, level_steps(s.red, new)), ..s }
}

/// The codes that set the tint to `new`.
pub open spec fn set_red_codes(s: LampState, new: u8) -> Seq<u32> {
    commands(if new > s.red { CMD_WARMER } else { CMD_COLDER }, level_steps(s.red, new))
}

/// The state after dimming to `new`.
pub open spec fn after_dim_to(s: LampState, new: u8) -> LampState {
    LampState { bright: new, ..s }
}

/// The codes that dim to `new`.
pub open spec fn dim_to_codes(s: LampState, new: u8) -> Seq<u32> {
    commands(if new > s.bright { CMD_BRIGHTER } else { CMD_DARKER }, level_steps(s.bright, new))
}

/// The state after switching on (`stat`) or off.
pub open spec fn after_switch(s: LampState, stat: bool) -> LampState {
    LampState { on: stat, ..s }
}

/// The code that switches on (`stat`) or off.
pub open spec fn switch_codes(stat: bool) -> Seq<u32> {
    seq![(LAMP_ID + if stat { CMD_ON } else { CMD_OFF }) as u32]
}

/// Setting the tint to `new` cannot overflow: a lamp that takes a step is not at
/// the top of the brightness type.
pub open spec fn set_red_fits(s: LampState, new: u8) -> bool {
    level_steps(s.red, new) > 0 ==> s.bright != 255
}

/// The effect on the lamp of receiving the lamp code `code`.
pub open spec fn rf_effect(s: LampState, code: u32) -> LampState {
    let cmd = code - LAMP_ID;
    if cmd == CMD_OFF {
        LampState { on: false, ..s }
    } else if cmd == CMD_ON {
        LampState { on: true, ..s }
    } else if cmd == CMD_WARMER {
        LampState { red: brightened(s.red, 1), bright: brightened(s.bright, 1), ..s }
    } else if cmd == CMD_COLDER {
        LampState { red: darkened(s.red), bright: brightened(s.bright, 1), ..s }
    } else if cmd == CMD_DARKER {
        LampState { bright: darkened(s.bright), ..s }
    } else if cmd == CMD_BRIGHTER {
        LampState { bright: brightened(s.bright, 1), ..s }
    } else {
        s
    }
}

/// The lamp code `code` can be taken without overflow.
pub open spec fn rf_fits(s: LampState, code: u32) -> bool {
    let cmd = code - LAMP_ID;
    &&& code >= LAMP_ID
    &&& cmd == CMD_WARMER ==> s.red != 255
    &&& (cmd == CMD_WARMER || cmd == CMD_COLDER || cmd == CMD_BRIGHTER) ==> s.bright != 255
}

/// The state after receiving `codes`, one after the other.
pub open spec fn replay(s: LampState, codes: Seq<u32>) -> LampState
    decreases codes.len(),
{
    if codes.len() == 0 {
        s
    } else {
        rf_effect(replay(s, codes.drop_last()), codes.last())
    }
}

/// What a network byte asks for: the high nibble is the brightness plus one
/// (zero: off), the low nibble the tint.
pub open spec fn network_brightness(byte: u8) -> int {
    byte as int / 16
}

/// The tint a network byte asks for.
pub open spec fn network_red(byte: u8) -> u8 {
    (byte % 16) as u8
}

/// The state after a network byte.
pub open spec fn after_network_byte(s: LampState, byte: u8) -> LampState {
    if network_brightness(byte) == 0 {
        after_switch(s, false)
    } else {
        after_switch(after_dim_to(after_set_red(s, network_red(byte)), (network_brightness(byte) - 1) as u8), true)
    }
}

/// The codes a network byte sends.
pub open spec fn network_byte_codes(s: LampState, byte: u8) -> Seq<u32> {
    if network_brightness(byte) == 0 {
        switch_codes(false)
    } else {
        let s1 = after_set_red(s, network_red(byte));
        set_red_codes(s, network_red(byte)) + dim_to_codes(s1, (network_brightness(byte) - 1) as u8)
            + switch_codes(true)
    }
}

/// A network byte can be taken without overflow.
pub open spec fn network_byte_fits(s: LampState, byte: u8) -> bool {
    network_brightness(byte) != 0 ==> set_red_fits(s, network_red(byte))
}

/// How the lamp reacted to a received code.
#[derive(Clone, Copy, Debug)]
pub enum Reaction {
    /// The wall switch's "off" button switched the lamp off.
    SwitchedOff,
    /// The wall switch's "off" button, pressed while the lamp was off: dark red light.
    DarkRed,
    /// The wall switch's "on" button, pressed while the lamp was on: full brightness.
    FullBrightness,
    /// The wall switch's "on" button, pressed while the lamp was off: dim cold light.
    Dimmed,
    /// A code sent to the lamp by some other remote: the state follows it.
    LampCode,
    /// A code nobody here knows.
    Unknown,
}

/// The state after a received code.
pub open spec fn after_radio_code(s: LampState, code: u32) -> LampState {
    if code == WALL_SWITCH_OFF {
        if s.on {
            after_switch(s, false)
        } else {
            after_switch(after_dim_to(after_set_red(s, 15), 0), true)
        }
    } else if code == WALL_SWITCH_ON {
        if s.on {
            after_dim_to(s, 15)
        } else {
            after_switch(after_dim_to(after_set_red(s, 0), 4), true)
        }
    } else if LAMP_ID <= code <= LAMP_ID_LAST {
        rf_effect(s, code)
    } else {
        s
    }
}

/// The codes a received code makes the lamp send.
pub open spec fn radio_code_codes(s: LampState, code: u32) -> Seq<u32> {
    if code == WALL_SWITCH_OFF {
        if s.on {
            switch_codes(false)
        } else {
            let s1 = after_set_red(s, 15);
            set_red_codes(s, 15) + dim_to_codes(s1, 0) + switch_codes(true)
        }
    } else if code == WALL_SWITCH_ON {
        if s.on {
            dim_to_codes(s, 15)
        } else {
            let s1 = after_set_red(s, 0);
            set_red_codes(s, 0) + dim_to_codes(s1, 4) + switch_codes(true)
        }
    } else {
        Seq::empty()
    }
}

/// How the lamp reacts to a received code.
pub open spec fn radio_reaction(s: LampState, code: u32) -> Reaction {
    if code == WALL_SWITCH_OFF {
        if s.on {
            Reaction::SwitchedOff
        } else {
            Reaction::DarkRed
        }
    } else if code == WALL_SWITCH_ON {
        if s.on {
            Reaction::FullBrightness
        } else {
            Reaction::Dimmed
        }
    } else if LAMP_ID <= code <= LAMP_ID_LAST {
        Reaction::LampCode
    } else {
        Reaction::Unknown
    }
}

/// A received code can be taken without overflow.
pub open spec fn radio_code_fits(s: LampState, code: u32) -> bool {
    if code == WALL_SWITCH_OFF {
        !s.on ==> set_red_fits(s, 15)
    } else if code == WALL_SWITCH_ON {
        !s.on ==> set_red_fits(s, 0)
    } else if LAMP_ID <= code <= LAMP_ID_LAST {
        rf_fits(s, code)
    } else {
        true
    }
}

impl LampStatus {
    /// Take control of the lamp, sending on output `pin` with the first known
    /// protocol, each code `TRANSMIT_REPEAT_COUNT - 1` times. The lamp's state is
    /// not known, so it is driven to a known one: full tint, brightness down to
    /// zero, off.
    pub fn new(pin: u8) -> (lamp: LampStatus)
        ensures
            lamp@.state == (LampState { bright: 0, red: 15, on: false }),
            lamp@.sent == set_red_codes(LampState { bright: 15, red: 0, on: true }, 15) + dim_to_codes(
                LampState { bright: 15, red: 15, on: true },
                0,
            ) + switch_codes(false),
            lamp@.transmitter.spec_protocol() == protocol_table(0),
            lamp@.transmitter.spec_pin() == pin,
            lamp@.transmitter.spec_repeat_count() == TRANSMIT_REPEAT_COUNT,
    {
        let con = Transmitter::new(0, pin, TRANSMIT_REPEAT_COUNT);
        let mut lamp = LampStatus { bright: 15, red: 0, on: true, con, outbox: Vec::new() };
        lamp.set_red(15);
        lamp.dim_to(0);
        lamp.switch(false);
        assert(lamp@.sent =~= Seq::<u32>::empty() + set_red_codes(LampState { bright: 15, red: 0, on: true }, 15)
            + dim_to_codes(LampState { bright: 15, red: 15, on: true }, 0) + switch_codes(false));
        lamp
    }

    /// Whether the lamp is on.
    pub fn is_on(&self) -> (on: bool)
        ensures
            on == self@.state.on,
    {
        self.on
    }

    /// The lamp's brightness.
    pub fn bright(&self) -> (bright: u8)
        ensures
            bright == self@.state.bright,
    {
        self.bright
    }

    /// The lamp's tint.
    pub fn red(&self) -> (red: u8)
        ensures
            red == self@.state.red,
    {
        self.red
    }

    /// The transmitter the codes are meant for.
    pub fn transmitter(&self) -> (t: &Transmitter)
        ensures
            *t == self@.transmitter,
    {
        &self.con
    }

    /// Whether `on_network_byte` can take `byte` in the present state.
    pub fn accepts_network_byte(&self, byte: u8) -> (ok: bool)
        ensures
            ok == network_byte_fits(self@.state, byte),
    {
        let br = byte >> 4u8;
        let red = byte & 0xFu8;
        assert(br == byte / 16 && red == byte % 16) by (bit_vector)
            requires
                br == byte >> 4u8,
                red == byte & 0xFu8,
        ;
        br == 0 || red == self.red || self.bright != 255
    }

    /// Whether `on_radio_code` can take `code` in the present state.
    pub fn accepts_radio_code(&self, code: u32) -> (ok: bool)
        ensures
            ok == radio_code_fits(self@.state, code),
    {
        if code == WALL_SWITCH_OFF {
            self.on || self.red == 15 || self.bright != 255
        } else if code == WALL_SWITCH_ON {
            self.on || self.red == 0 || self.bright != 255
        } else if LAMP_ID <= code && code <= LAMP_ID_LAST {
            let cmd = code - LAMP_ID;
            (cmd != CMD_WARMER || self.red != 255) && (!(cmd == CMD_WARMER || cmd == CMD_COLDER
                || cmd == CMD_BRIGHTER) || self.bright != 255)
        } else {
            true
        }
    }

    /// Hand out the codes waiting to be sent, oldest first, and forget them.
    pub fn take_outbox(&mut self) -> (codes: Vec<u32>)
        ensures
            codes@ == old(self)@.sent,
            final(self)@.sent == Seq::<u32>::empty(),
            final(self)@.state == old(self)@.state,
            final(self)@.transmitter == old(self)@.transmitter,
    {
        let mut codes: Vec<u32> = Vec::new();
        std::mem::swap(&mut codes, &mut self.outbox);
        codes
    }

    fn got_brighter(&mut self)
        requires
            old(self).bright != 255,
        ensures
            final(self).bright == brightened(old(self).bright, 1),
            final(self).red == old(self).red,
            final(self).on == old(self).on,
            final(self).con == old(self).con,
            final(self).outbox == old(self).outbox,
    {
        let br = self.bright + 1;
        self.bright = if br > MAX_LEVEL {
            MAX_LEVEL
        } else {
            br
        };
    }

    fn got_darker(&mut self)
        ensures
            final(self).bright == darkened(old(self).bright),
            final(self).red == old(self).red,
            final(self).on == old(self).on,
            final(self).con == old(self).con,
            final(self).outbox == old(self).outbox,
    {
        self.bright = if self.bright > 0 {
            self.bright - 1
        } else {
            0
        };
    }

    /// Set the tint to `new`, one step at a time. Each step also makes the lamp
    /// one step brighter.
    pub fn set_red(&mut self, new: u8)
        requires
            set_red_fits(old(self)@.state, new),
        ensures
            final(self)@.state == after_set_red(old(self)@.state, new),
            final(self)@.sent == old(self)@.sent + set_red_codes(old(self)@.state, new),
            final(self)@.transmitter == old(self)@.transmitter,
    {
        let (cmd, steps) = if new > self.red {
            (CMD_WARMER, new - self.red)
        } else {
            (CMD_COLDER, self.red - new)
        };
        let ghost start = *self;
        let mut i: u8 = 0;
        while i < steps
            invariant
                i <= steps,
                steps == level_steps(start.red, new),
                cmd == (if new > start.red { CMD_WARMER } else { CMD_COLDER }),
                steps > 0 ==> start.bright != 255,
                self.bright == brightened(start.bright, i as nat),
                self.red == start.red,
                self.on == start.on,
                self.con == start.con,
                self.outbox@ == start.outbox@ + commands(cmd, i as nat),
            decreases steps - i,
        {
            self.send(cmd);
            self.got_brighter();
            assert(start.outbox@ + commands(cmd, (i + 1) as nat) =~= start.outbox@ + commands(
                cmd,
                i as nat,
            ) + seq![(LAMP_ID + cmd) as u32]);
            i = i + 1;
        }
        self.red = new;
    }

    /// Dim to brightness `new`, one step at a time.
    pub fn dim_to(&mut self, new: u8)
        ensures
            final(self)@.state == after_dim_to(old(self)@.state, new),
            final(self)@.sent == old(self)@.sent + dim_to_codes(old(self)@.state, new),
            final(self)@.transmitter == old(self)@.transmitter,
    {
        let (cmd, steps) = if new > self.bright {
            (CMD_BRIGHTER, new - self.bright)
        } else {
            (CMD_DARKER, self.bright - new)
        };
        let ghost start = *self;
        let mut i: u8 = 0;
        while i < steps
            invariant
                i <= steps,
                steps == level_steps(start.bright, new),
                cmd == (if new > start.bright { CMD_BRIGHTER } else { CMD_DARKER }),
                self.bright == start.bright,
                self.red == start.red,
                self.on == start.on,
                self.con == start.con,
                self.outbox@ == start.outbox@ + commands(cmd, i as nat),
            decreases steps - i,
        {
            self.send(cmd);
            assert(start.outbox@ + commands(cmd, (i + 1) as nat) =~= start.outbox@ + commands(
                cmd,
                i as nat,
            ) + seq![(LAMP_ID + cmd) as u32]);
            i = i + 1;
        }
        self.bright = new;
    }

    /// Switch the lamp on (`stat`) or off.
    pub fn switch(&mut self, stat: bool)
        ensures
            final(self)@.state == after_switch(old(self)@.state, stat),
            final(self)@.sent == old(self)@.sent + switch_codes(stat),
            final(self)@.transmitter == old(self)@.transmitter,
    {
        self.on = stat;
        let cmd = if stat {
            CMD_ON
        } else {
            CMD_OFF
        };
        self.send(cmd);
        assert(self.outbox@ =~= old(self).outbox@ + switch_codes(stat));
    }

    fn send(&mut self, cmd: u32)
        requires
            cmd <= u32::MAX - LAMP_ID,
        ensures
            final(self).outbox@ == old(self).outbox@.push((LAMP_ID + cmd) as u32),
            final(self).bright == old(self).bright,
            final(self).red == old(self).red,
            final(self).on == old(self).on,
            final(self).con == old(self).con,
    {
        let code = LAMP_ID + cmd;
        self.outbox.push(code);
    }

    /// Follow a code sent to the lamp by another remote, so that the state
    /// stays true to the lamp.
    pub fn update_rf(&mut self, cmd: u32)
        requires
            rf_fits(old(self)@.state, cmd),
        ensures
            final(self)@.state == rf_effect(old(self)@.state, cmd),
            final(self)@.sent == old(self)@.sent,
            final(self)@.transmitter == old(self)@.transmitter,
    {
        let cmd = cmd - LAMP_ID;
        if cmd == CMD_OFF {
            self.on = false;
        } else if cmd == CMD_ON {
            self.on = true;
        } else if cmd == CMD_WARMER {
            let br = self.red + 1;
            self.red = if br > MAX_LEVEL {
                MAX_LEVEL
            } else {
                br
            };
            self.got_brighter();
        } else if cmd == CMD_COLDER {
            self.red = if self.red > 0 {
                self.red - 1
            } else {
                0
            };
            self.got_brighter();
        } else if cmd == CMD_DARKER {
            self.got_darker();
        } else if cmd == CMD_BRIGHTER {
            self.got_brighter();
        }
    }

    /// React to a command byte from the network: the high nibble is the
    /// brightness plus one, zero meaning off; the low nibble is the tint.
    pub fn on_network_byte(&mut self, byte: u8)
        requires
            network_byte_fits(old(self)@.state, byte),
        ensures
            final(self)@.state == after_network_byte(old(self)@.state, byte),
            final(self)@.sent == old(self)@.sent + network_byte_codes(old(self)@.state, byte),
            final(self)@.transmitter == old(self)@.transmitter,
    {
        let br = (byte & 0xF0u8) >> 4u8;
        let red = byte & 0xFu8;
        assert(br == byte / 16 && red == byte % 16) by (bit_vector)
            requires
                br == (byte & 0xF0u8) >> 4u8,
                red == byte & 0xFu8,
        ;
        if br == 0 {
            self.switch(false);
        } else {
            self.set_red(red);
            self.dim_to(br - 1);
            self.switch(true);
            assert(self@.sent =~= old(self)@.sent + network_byte_codes(old(self)@.state, byte));
        }
    }

    /// React to a code received over the air: the wall switch's buttons, and
    /// codes for the lamp sent by other remotes.
    pub fn on_radio_code(&mut self, code: u32) -> (reaction: Reaction)
        requires
            radio_code_fits(old(self)@.state, code),
        ensures
            reaction == radio_reaction(old(self)@.state, code),
            final(self)@.state == after_radio_code(old(self)@.state, code),
            final(self)@.sent == old(self)@.sent + radio_code_codes(old(self)@.state, code),
            final(self)@.transmitter == old(self)@.transmitter,
    {
        if code == WALL_SWITCH_OFF {
            if self.on {
                self.switch(false);
                Reaction::SwitchedOff
            } else {
                self.set_red(15);
                self.dim_to(0);
                self.switch(true);
                assert(self@.sent =~= old(self)@.sent + radio_code_codes(old(self)@.state, code));
                Reaction::DarkRed
            }
        } else if code == WALL_SWITCH_ON {
            if self.on {
                self.dim_to(15);
                Reaction::FullBrightness
            } else {
                self.set_red(0);
                self.dim_to(4);
                self.switch(true);
                assert(self@.sent =~= old(self)@.sent + radio_code_codes(old(self)@.state, code));
                Reaction::Dimmed
            }
        } else if LAMP_ID <= code && code <= LAMP_ID_LAST {
            self.update_rf(code);
            assert(self@.sent =~= old(self)@.sent + radio_code_codes(old(self)@.state, code));
            Reaction::LampCode
        } else {
            assert(self@.sent =~= old(self)@.sent + radio_code_codes(old(self)@.state, code));
            Reaction::Unknown
        }
    }
}

/// Receiving two runs of codes is receiving their concatenation.
pub proof fn lemma_replay_append(s: LampState, a: Seq<u32>, b: Seq<u32>)
    ensures
        replay(s, a + b) == replay(replay(s, a), b),
    decreases b.len(),
{
    if b.len() == 0 {
        assert(a + b =~= a);
    } else {
        lemma_replay_append(s, a, b.drop_last());
        assert((a + b).drop_last() =~= a + b.drop_last());
        assert((a + b).last() == b.last());
    }
}

/// Receiving one command `k + 1` times is receiving it `k` times, then once more.
proof fn lemma_commands_push(s: LampState, cmd: u32, k: nat)
    ensures
        replay(s, commands(cmd, k + 1)) == rf_effect(replay(s, commands(cmd, k)), (LAMP_ID + cmd) as u32),
{
    assert(commands(cmd, k + 1).drop_last() =~= commands(cmd, k));
}

/// `k` warmer or colder steps move the tint by `k` and brighten `k` times.
proof fn lemma_tint_steps(s: LampState, cmd: u32, k: nat)
    requires
        cmd == CMD_WARMER ==> s.red + k <= MAX_LEVEL,
        cmd == CMD_COLDER ==> s.red >= k,
        cmd == CMD_WARMER || cmd == CMD_COLDER,
    ensures
        replay(s, commands(cmd, k)) == (LampState {
            red: (if cmd == CMD_WARMER { s.red + k } else { s.red - k }) as u8,
            bright: brightened(s.bright, k),
            ..s
        }),
    decreases k,
{
    if k == 0 {
        assert(commands(cmd, 0) =~= Seq::<u32>::empty());
    } else {
        lemma_tint_steps(s, cmd, (k - 1) as nat);
        lemma_commands_push(s, cmd, (k - 1) as nat);
    }
}

/// `k` brighter or darker steps move the brightness by `k`.
proof fn lemma_brightness_steps(s: LampState, cmd: u32, k: nat)
    requires
        cmd == CMD_BRIGHTER ==> s.bright + k <= MAX_LEVEL,
        cmd == CMD_DARKER ==> s.bright >= k,
        cmd == CMD_BRIGHTER || cmd == CMD_DARKER,
    ensures
        replay(s, commands(cmd, k)) == (LampState {
            bright: (if cmd == CMD_BRIGHTER { s.bright + k } else { s.bright - k }) as u8,
            ..s
        }),
    decreases k,
{
    if k == 0 {
        assert(commands(cmd, 0) =~= Seq::<u32>::empty());
    } else {
        lemma_brightness_steps(s, cmd, (k - 1) as nat);
        lemma_commands_push(s, cmd, (k - 1) as nat);
    }
}

/// The lamp follows its tint: a listener that applies the codes `set_red`
/// sends, as the lamp does, ends in the state `set_red` records (for tints up
/// to `MAX_LEVEL`).
pub proof fn lemma_set_red_mirrored(s: LampState, new: u8)
    requires
        new <= MAX_LEVEL,
    ensures
        replay(s, set_red_codes(s, new)) == after_set_red(s, new),
{
    lemma_tint_steps(s, if new > s.red { CMD_WARMER } else { CMD_COLDER }, level_steps(s.red, new));
}

/// The lamp follows its brightness: applying the codes `dim_to` sends gives the
/// state `dim_to` records (for levels up to `MAX_LEVEL`).
pub proof fn lemma_dim_to_mirrored(s: LampState, new: u8)
    requires
        new <= MAX_LEVEL,
    ensures
        replay(s, dim_to_codes(s, new)) == after_dim_to(s, new),
{
    lemma_brightness_steps(s, if new > s.bright { CMD_BRIGHTER } else { CMD_DARKER }, level_steps(s.bright, new));
}

/// The lamp follows its switch: applying the code `switch` sends gives the
/// state `switch` records.
pub proof fn lemma_switch_mirrored(s: LampState, stat: bool)
    ensures
        replay(s, switch_codes(stat)) == after_switch(s, stat),
{
    reveal_with_fuel(replay, 2);
    assert(switch_codes(stat).drop_last() =~= Seq::<u32>::empty());
}

/// Whatever a network byte asks for, the codes sent bring the lamp to the state
/// recorded.
pub proof fn lemma_network_byte_mirrored(s: LampState, byte: u8)
    ensures
        replay(s, network_byte_codes(s, byte)) == after_network_byte(s, byte),
{
    if network_brightness(byte) == 0 {
        lemma_switch_mirrored(s, false);
    } else {
        let red = network_red(byte);
        let bright = (network_brightness(byte) - 1) as u8;
        let s1 = after_set_red(s, red);
        let s2 = after_dim_to(s1, bright);
        lemma_set_red_mirrored(s, red);
        lemma_dim_to_mirrored(s1, bright);
        lemma_switch_mirrored(s2, true);
        lemma_replay_append(s, set_red_codes(s, red), dim_to_codes(s1, bright));
        lemma_replay_append(s, set_red_codes(s, red) + dim_to_codes(s1, bright), switch_codes(true));
    }
}

/// Whatever a received code asks for, the codes sent bring the lamp to the
/// state recorded (for the wall switch's buttons; lamp codes from other remotes
/// are followed, not answered).
pub proof fn lemma_radio_code_mirrored(s: LampState, code: u32)
    requires
        code == WALL_SWITCH_OFF || code == WALL_SWITCH_ON,
    ensures
        replay(s, radio_code_codes(s, code)) == after_radio_code(s, code),
{
    if s.on {
        if code == WALL_SWITCH_OFF {
            lemma_switch_mirrored(s, false);
        } else {
            lemma_dim_to_mirrored(s, 15);
        }
    } else {
        let (red, bright) = if code == WALL_SWITCH_OFF { (15u8, 0u8) } else { (0u8, 4u8) };
        let s1 = after_set_red(s, red);
        let s2 = after_dim_to(s1, bright);
        lemma_set_red_mirrored(s, red);
        lemma_dim_to_mirrored(s1, bright);
        lemma_switch_mirrored(s2, true);
        lemma_replay_append(s, set_red_codes(s, red), dim_to_codes(s1, bright));
        lemma_replay_append(s, set_red_codes(s, red) + dim_to_codes(s1, bright), switch_codes(true));
    }
}

/// Taking control: the codes `new` sends bring a lamp that is on, full bright
/// and fully cold to the state `new` records.
pub proof fn lemma_new_mirrored()
    ensures
        replay(
            LampState { bright: 15, red: 0, on: true },
            set_red_codes(LampState { bright: 15, red: 0, on: true }, 15) + dim_to_codes(
                LampState { bright: 15, red: 15, on: true },
                0,
            ) + switch_codes(false),
        ) == (LampState { bright: 0, red: 15, on: false }),
{
    let s0 = LampState { bright: 15, red: 0, on: true };
    let s1 = LampState { bright: 15, red: 15, on: true };
    let s2 = LampState { bright: 0, red: 15, on: true };
    lemma_set_red_mirrored(s0, 15);
    lemma_dim_to_mirrored(s1, 0);
    lemma_switch_mirrored(s2, false);
    lemma_replay_append(s0, set_red_codes(s0, 15), dim_to_codes(s1, 0));
    lemma_replay_append(s0, set_red_codes(s0, 15) + dim_to_codes(s1, 0), switch_codes(false));
}

/// Every code the lamp sends fits its 24 bits on the air: a transmitter that
/// sends it at least three times gets it, unchanged, to a receiver in any state.
pub proof fn lemma_lamp_code_received(s: RcSwitchState, repeat_count: u8, cmd: u32)
    requires
        rc_wf(s),
        repeat_count >= 4,
        cmd <= CMD_WARMER,
    ensures
        run(
            rc_machine(),
            s,
            pulse_durations(send_plan(receive_protocol(), repeat_count, (LAMP_ID + cmd) as u32, CODE_BIT_COUNT as nat)),
        ).1 == Some((LAMP_ID + cmd) as u32),
{
    lemma_transmission_received(s, repeat_count, (LAMP_ID + cmd) as u32, CODE_BIT_COUNT as nat);
    vstd::arithmetic::power2::lemma2_to64();
    vstd::arithmetic::div_mod::lemma_small_mod((LAMP_ID + cmd) as nat, pow2(24));
}

// ------------------------------------------------------------------------------
// What the operations mean, in plain numbers
// ------------------------------------------------------------------------------

/// `count` copies of the code 14434000 + `cmd` (the lamp's address plus a
/// command number).
pub open spec fn lamp_codes(cmd: int, count: int) -> Seq<u32> {
    Seq::new(count as nat, |i: int| (14434000 + cmd) as u32)
}

/// The brightness after `steps` tint or brightness steps up from `bright`:
/// each step adds one, up to 15.
pub open spec fn raised(bright: u8, steps: int) -> int {
    if steps == 0 {
        bright as int
    } else {
        vstd::math::min(bright + steps, 15)
    }
}

/// Receiving a lamp code: 611 switches off, 755 on; 800 makes the tint one
/// warmer and 608 one colder (within 0..15), and both make the lamp one step
/// brighter; 572 makes it one step brighter (up to 15), 620 one step darker
/// (down to 0). Any other command changes nothing.
pub proof fn lemma_rf_meaning(s: LampState, code: u32)
    requires
        code >= 14434000,
    ensures
        ({
            let r = rf_effect(s, code);
            let c = code - 14434000;
            &&& c == 611 ==> r == LampState { on: false, ..s }
            &&& c == 755 ==> r == LampState { on: true, ..s }
            &&& c == 800 ==> r.red == vstd::math::min(s.red + 1, 15) && r.bright == vstd::math::min(
                s.bright + 1,
                15,
            ) && r.on == s.on
            &&& c == 608 ==> r.red == vstd::math::max(s.red - 1, 0) && r.bright == vstd::math::min(
                s.bright + 1,
                15,
            ) && r.on == s.on
            &&& c == 572 ==> r == LampState { bright: vstd::math::min(s.bright + 1, 15) as u8, ..s }
            &&& c == 620 ==> r == LampState { bright: vstd::math::max(s.bright - 1, 0) as u8, ..s }
            &&& !(c == 611 || c == 755 || c == 800 || c == 608 || c == 572 || c == 620) ==> r == s
        }),
{
}

/// Setting the tint to `new`: the tint becomes `new`, the on/off state stays,
/// each of the `|new - red|` steps makes the lamp one step brighter (up to 15),
/// and the codes are that many 800s (warmer) or 608s (colder).
pub proof fn lemma_set_red_meaning(s: LampState, new: u8)
    ensures
        ({
            let steps = vstd::math::abs(new - s.red) as int;
            &&& after_set_red(s, new) == LampState { red: new, bright: raised(s.bright, steps) as u8, on: s.on }
            &&& set_red_codes(s, new) == lamp_codes(if new > s.red { 800 } else { 608 }, steps)
        }),
{
    assert(set_red_codes(s, new) =~= lamp_codes(
        if new > s.red { 800 } else { 608 },
        vstd::math::abs(new - s.red) as int,
    ));
}

/// Dimming to `new`: the brightness becomes `new`, tint and on/off stay, and the
/// codes are `|new - bright|` 572s (brighter) or 620s (darker).
pub proof fn lemma_dim_to_meaning(s: LampState, new: u8)
    ensures
        after_dim_to(s, new) == (LampState { bright: new, ..s }),
        dim_to_codes(s, new) == lamp_codes(
            if new > s.bright { 572 } else { 620 },
            vstd::math::abs(new - s.bright) as int,
        ),
{
    assert(dim_to_codes(s, new) =~= lamp_codes(
        if new > s.bright { 572 } else { 620 },
        vstd::math::abs(new - s.bright) as int,
    ));
}

/// Switching: only the on/off state changes, and the single code is 755 (on)
/// or 611 (off).
pub proof fn lemma_switch_meaning(s: LampState, stat: bool)
    ensures
        after_switch(s, stat) == (LampState { on: stat, ..s }),
        switch_codes(stat) == lamp_codes(if stat { 755 } else { 611 }, 1),
{
    assert(switch_codes(stat) =~= lamp_codes(if stat { 755 } else { 611 }, 1));
}

/// A network byte with high nibble `h` and low nibble `l`: for `h >= 1` the lamp
/// ends on, at brightness `h - 1` and tint `l`, after the tint steps, the
/// brightness steps from where the tint steps left it, and the code 755; for
/// `h == 0` it is switched off with the single code 611, its levels kept.
pub proof fn lemma_network_byte_meaning(s: LampState, byte: u8)
    ensures
        ({
            let h = byte / 16;
            let l = byte % 16;
            let tint_steps = vstd::math::abs(l - s.red) as int;
            let bright_after_tint = raised(s.bright, tint_steps);
            &&& h >= 1 ==> after_network_byte(s, byte) == LampState {
                bright: (h - 1) as u8,
                red: l as u8,
                on: true,
            }
            &&& h >= 1 ==> network_byte_codes(s, byte) == lamp_codes(
                if l > s.red { 800 } else { 608 },
                tint_steps,
            ) + lamp_codes(
                if h - 1 > bright_after_tint { 572 } else { 620 },
                vstd::math::abs(h - 1 - bright_after_tint) as int,
            ) + lamp_codes(755, 1)
            &&& h == 0 ==> after_network_byte(s, byte) == LampState { on: false, ..s }
            &&& h == 0 ==> network_byte_codes(s, byte) == lamp_codes(611, 1)
        }),
{
    let h = byte / 16;
    let l = (byte % 16) as u8;
    lemma_switch_meaning(s, false);
    if h >= 1 {
        lemma_set_red_meaning(s, l);
        let s1 = after_set_red(s, l);
        lemma_dim_to_meaning(s1, (h - 1) as u8);
        lemma_switch_meaning(after_dim_to(s1, (h - 1) as u8), true);
    }
}

/// The wall switch. Off button: a lamp that is on is switched off with the
/// single code 611, brightness and tint kept; a lamp that is off goes to dark
/// red (tint 15, brightness 0) and on. On button: a lamp that is on goes to full
/// brightness, tint kept, by brightness steps alone; a lamp that is off goes to
/// a dim cold light (tint 0, brightness 4) and on. A code in the lamp's range
/// (14434000 to 14434999) is followed as the lamp follows it and answered with
/// nothing; any other code changes nothing.
pub proof fn lemma_radio_code_meaning(s: LampState, code: u32)
    ensures
        ({
            let after = after_radio_code(s, code);
            let codes = radio_code_codes(s, code);
            let reaction = radio_reaction(s, code);
            &&& code == 3314352130 && s.on ==> after == LampState { on: false, ..s } && codes == lamp_codes(611, 1)
                && reaction is SwitchedOff
            &&& code == 3314352130 && !s.on ==> after == LampState { bright: 0, red: 15, on: true }
                && codes.last() == 14434755 && reaction is DarkRed
            &&& code == 3314352146 && s.on ==> after == LampState { bright: 15, ..s } && codes == lamp_codes(
                if 15 > s.bright { 572 } else { 620 },
                vstd::math::abs(15 - s.bright) as int,
            ) && reaction is FullBrightness
            &&& code == 3314352146 && !s.on ==> after == LampState { bright: 4, red: 0, on: true }
                && codes.last() == 14434755 && reaction is Dimmed
            &&& 14434000 <= code <= 14434999 ==> after == rf_effect(s, code) && codes.len() == 0
                && reaction is LampCode
            &&& code != 3314352130 && code != 3314352146 && !(14434000 <= code <= 14434999) ==> after == s
                && codes.len() == 0 && reaction is Unknown
        }),
{
    lemma_switch_meaning(s, false);
    lemma_dim_to_meaning(s, 15);
}

/// Levels stay in range: a lamp whose tint and brightness are at most 15 keeps
/// them at most 15 through any lamp code, network byte or received code.
pub proof fn lemma_levels_stay_in_range(s: LampState, code: u32, byte: u8)
    requires
        s.bright <= 15,
        s.red <= 15,
    ensures
        code >= 14434000 ==> rf_effect(s, code).bright <= 15 && rf_effect(s, code).red <= 15,
        after_network_byte(s, byte).bright <= 15 && after_network_byte(s, byte).red <= 15,
        after_radio_code(s, code).bright <= 15 && after_radio_code(s, code).red <= 15,
{
}

/// A lamp whose levels are at most 15 can take any network byte, any received
/// code and any tint: nothing overflows.
pub proof fn lemma_in_range_takes_everything(s: LampState, code: u32, byte: u8, new: u8)
    requires
        s.bright <= 15,
        s.red <= 15,
    ensures
        network_byte_fits(s, byte),
        radio_code_fits(s, code),
        set_red_fits(s, new),
{
}

/// Taking control sends fifteen 800s (warmer), fifteen 620s (darker) and one
/// 611 (off).
pub proof fn lemma_new_meaning()
    ensures
        set_red_codes(LampState { bright: 15, red: 0, on: true }, 15) + dim_to_codes(
            LampState { bright: 15, red: 15, on: true },
            0,
        ) + switch_codes(false) == lamp_codes(800, 15) + lamp_codes(620, 15) + lamp_codes(611, 1),
{
    lemma_set_red_meaning(LampState { bright: 15, red: 0, on: true }, 15);
    lemma_dim_to_meaning(LampState { bright: 15, red: 15, on: true }, 0);
    lemma_switch_meaning(LampState { bright: 0, red: 15, on: true }, false);
}

} // verus!
