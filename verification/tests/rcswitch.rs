use lampctl::lamp::{CMD_WARMER, LAMP_ID};
use lampctl::rcswitch::{diff, protocol, Pulse, RcSwitchDecoder, Transmitter, PROTOCOL_COUNT};

fn durations(pulses: &[Pulse]) -> Vec<u32> {
    let mut out = Vec::new();
    for p in pulses {
        out.push(p.high_us);
        out.push(p.low_us);
    }
    out
}

fn receive(decoder: &mut RcSwitchDecoder, durations: &[u32]) -> u32 {
    let mut received: u32 = 0;
    for &d in durations {
        assert!(decoder.accepts(d));
        decoder.interrupt(d, &mut received);
    }
    received
}

#[test]
fn diff_is_distance() {
    assert_eq!(diff(5, 3), 2);
    assert_eq!(diff(3, 5), 2);
    assert_eq!(diff(7, 7), 0);
    assert_eq!(diff(0, u32::MAX), u32::MAX);
    assert_eq!(diff(u32::MAX, 0), u32::MAX);
}

#[test]
fn protocol_zero_timings() {
    assert_eq!(PROTOCOL_COUNT, 1);
    let p = protocol(0);
    assert_eq!(p.pulse_length, 250);
    assert_eq!((p.sync_factor.high, p.sync_factor.low), (1, 31));
    assert_eq!((p.zero.high, p.zero.low), (1, 3));
    assert_eq!((p.one.high, p.one.low), (3, 1));
}

#[test]
fn transmitter_keeps_pin() {
    let t = Transmitter::new(0, 24, 7);
    assert_eq!(t.pin(), 24);
}

#[test]
fn send_three_bits_once() {
    let t = Transmitter::new(0, 24, 2);
    let pulses = t.send(0b101, 3);
    let got: Vec<(u32, u32)> = pulses.iter().map(|p| (p.high_us, p.low_us)).collect();
    assert_eq!(got, vec![(750, 250), (250, 750), (750, 250), (250, 7750)]);
}

#[test]
fn send_repeats_frame_repeat_count_minus_one_times() {
    let t = Transmitter::new(0, 24, 4);
    let pulses = t.send(0b10, 2);
    let got: Vec<(u32, u32)> = pulses.iter().map(|p| (p.high_us, p.low_us)).collect();
    let frame = vec![(750, 250), (250, 750), (250, 7750)];
    let mut expected = Vec::new();
    for _ in 0..3 {
        expected.extend(frame.iter().cloned());
    }
    assert_eq!(got, expected);
}

#[test]
fn send_with_repeat_count_one_or_zero_sends_nothing() {
    assert!(Transmitter::new(0, 24, 1).send(0xFFFF, 16).is_empty());
    assert!(Transmitter::new(0, 24, 0).send(0xFFFF, 16).is_empty());
}

#[test]
fn send_zero_bits_sends_only_sync() {
    let pulses = Transmitter::new(0, 24, 2).send(0xFFFF_FFFF, 0);
    assert_eq!(pulses.len(), 1);
    assert_eq!((pulses[0].high_us, pulses[0].low_us), (250, 7750));
}

#[test]
fn send_uses_the_low_bits_only() {
    let pulses = Transmitter::new(0, 24, 2).send(0xFFFF_FFF0, 4);
    let got: Vec<(u32, u32)> = pulses.iter().map(|p| (p.high_us, p.low_us)).collect();
    assert_eq!(got, vec![(250, 750), (250, 750), (250, 750), (250, 750), (250, 7750)]);
}

#[test]
fn send_all_32_bits() {
    let pulses = Transmitter::new(0, 24, 2).send(0x8000_0001, 32);
    assert_eq!(pulses.len(), 33);
    assert_eq!(pulses[0].high_us, 750);
    for p in &pulses[1..31] {
        assert_eq!(p.high_us, 250);
    }
    assert_eq!(pulses[31].high_us, 750);
}

#[test]
fn receiver_decodes_what_transmitter_sends() {
    let code = LAMP_ID + CMD_WARMER;
    let pulses = Transmitter::new(0, 24, 7).send(code, 24);
    let mut decoder = RcSwitchDecoder::new();
    assert_eq!(receive(&mut decoder, &durations(&pulses)), code);
}

#[test]
fn receiver_keeps_only_the_sent_bits() {
    let pulses = Transmitter::new(0, 24, 4).send(0xABCD_1234, 12);
    let mut decoder = RcSwitchDecoder::new();
    assert_eq!(receive(&mut decoder, &durations(&pulses)), 0x234);
}

#[test]
fn receiver_decodes_after_noise() {
    let mut decoder = RcSwitchDecoder::new();
    let noise = [300u32, 9000, 1200, 40, 5000, 700, 6000, 6100, 100];
    let mut received = 0u32;
    for &d in &noise {
        decoder.interrupt(d, &mut received);
    }
    let pulses = Transmitter::new(0, 24, 4).send(0x5A5A5A, 24);
    assert_eq!(receive(&mut decoder, &durations(&pulses)), 0x5A5A5A);
}

#[test]
fn receiver_needs_two_matching_separations() {
    // one frame after a separation is not enough
    let pulses = Transmitter::new(0, 24, 2).send(0x5A5A5A, 24);
    let mut decoder = RcSwitchDecoder::new();
    let mut d = vec![7750u32];
    d.extend(durations(&pulses));
    assert_eq!(receive(&mut decoder, &d), 0);
    // the next repetition completes it
    assert_eq!(receive(&mut decoder, &durations(&pulses)), 0x5A5A5A);
}

#[test]
fn receiver_ignores_short_frames() {
    // two bits: four edges between separations, taken for noise
    let pulses = Transmitter::new(0, 24, 5).send(0b11, 2);
    let mut decoder = RcSwitchDecoder::new();
    assert_eq!(receive(&mut decoder, &durations(&pulses)), 0);
}

#[test]
fn receiver_rejects_a_frame_with_an_unknown_pulse() {
    let mut decoder = RcSwitchDecoder::new();
    let mut received = 0u32;
    // separation, then four pulses: one, garbage, one, one, then sync
    let frame = [750u32, 250, 2000, 2000, 750, 250, 750, 250, 250, 7750];
    for _ in 0..3 {
        for &d in &frame {
            decoder.interrupt(d, &mut received);
        }
    }
    assert_eq!(received, 0);
}

#[test]
fn unknown_pulse_in_the_middle_reports_nothing() {
    let mut decoder = RcSwitchDecoder::new();
    let mut received = 0u32;
    let f = [750u32, 250, 500, 500, 250, 750, 250, 750, 250];
    decoder.interrupt(7750, &mut received);
    for _ in 0..2 {
        for &d in &f {
            decoder.interrupt(d, &mut received);
        }
        decoder.interrupt(7750, &mut received);
    }
    assert_eq!(received, 0);
    // the round restarts: the same frame without the bad pulse decodes after two more separations
    let good = [750u32, 250, 250, 750, 250, 750, 250, 750, 250];
    for _ in 0..2 {
        for &d in &good {
            decoder.interrupt(d, &mut received);
        }
        decoder.interrupt(7750, &mut received);
    }
    assert_eq!(received, 0b1000);
}

#[test]
fn accepts_refuses_overflowing_separation() {
    let mut decoder = RcSwitchDecoder::new();
    let mut received = 0u32;
    let big = 4_000_000_000u32;
    decoder.interrupt(big, &mut received);
    assert!(decoder.accepts(big));
    decoder.interrupt(big, &mut received);
    // the second matching separation would decode with a tolerance beyond 32 bits
    assert!(!decoder.accepts(big));
    assert!(decoder.accepts(1000));
}

#[test]
fn send_any_bit_count_without_repeats_sends_nothing() {
    assert!(Transmitter::new(0, 24, 1).send(0xFFFF, 40).is_empty());
    assert!(Transmitter::new(0, 24, 0).send(0xFFFF, 255).is_empty());
}

#[test]
fn receiver_decodes_within_tolerance() {
    // separations of 7750 give a unit of 250 and a tolerance of 150
    let frame = [300u32, 700, 700, 300, 101, 649, 849, 399, 250, 750, 250, 7800];
    let mut decoder = RcSwitchDecoder::new();
    let mut received = 0u32;
    decoder.interrupt(7750, &mut received);
    for _ in 0..2 {
        for &d in &frame[..frame.len() - 1] {
            decoder.interrupt(d, &mut received);
        }
        decoder.interrupt(7750, &mut received);
    }
    assert_eq!(received, 0b01010);
}

#[test]
fn send_timing_does_not_depend_on_the_code() {
    let t = Transmitter::new(0, 24, 7);
    for code in [0u32, 0xFF_FFFF, 0xA5_5A5A, 14434800] {
        let pulses = t.send(code, 24);
        assert_eq!(pulses.len(), 6 * 25);
        let total: u64 = pulses.iter().map(|p| (p.high_us + p.low_us) as u64).sum();
        assert_eq!(total, 6 * (1000 * 24 + 8000));
    }
}
