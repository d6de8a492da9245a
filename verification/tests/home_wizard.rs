use lampctl::home_wizard::{HomeWizardDecoder, Level};

fn frame_edges(t: u32, code: u32, bits: u32) -> Vec<(Level, u32)> {
    let mut edges = vec![(Level::Low, t), (Level::High, 10 * t)];
    for i in (0..bits).rev() {
        let one = code & (1 << i) != 0;
        if one {
            edges.extend([(Level::Low, t), (Level::High, 5 * t), (Level::Low, t), (Level::High, t)]);
        } else {
            edges.extend([(Level::Low, t), (Level::High, t), (Level::Low, t), (Level::High, 5 * t)]);
        }
    }
    edges.extend([(Level::Low, t), (Level::High, 40 * t)]);
    edges
}

fn feed(decoder: &mut HomeWizardDecoder, edges: &[(Level, u32)]) -> u32 {
    let mut received = 0u32;
    for &(level, d) in edges {
        decoder.interrupt(level, d, &mut received);
    }
    received
}

#[test]
fn decodes_a_frame() {
    let code = 0b1100_0101_1000_1101_0000_0000_0001_0010u32;
    let mut decoder = HomeWizardDecoder::new();
    assert_eq!(feed(&mut decoder, &frame_edges(260, code, 32)), code);
}

#[test]
fn decodes_at_both_ends_of_the_base_time() {
    for t in [241u32, 279] {
        let mut decoder = HomeWizardDecoder::new();
        assert_eq!(feed(&mut decoder, &frame_edges(t, 0xDEAD_BEEF, 32)), 0xDEAD_BEEF);
    }
}

#[test]
fn keeps_the_last_32_bits() {
    // a frame of 34 bits: two ones, then 0x1234_5678
    let mut edges = vec![(Level::Low, 250u32), (Level::High, 2500)];
    edges.extend(frame_edges(250, 0b11, 2)[2..10].iter().cloned());
    edges.extend(frame_edges(250, 0x1234_5678, 32)[2..].iter().cloned());
    let mut decoder = HomeWizardDecoder::new();
    assert_eq!(feed(&mut decoder, &edges), 0x1234_5678);
}

#[test]
fn uncalibrated_decoder_delivers_nothing() {
    let mut decoder = HomeWizardDecoder::new();
    let mut received = 7u32;
    for d in [260u32, 2600, 1300, 10400] {
        decoder.interrupt(Level::High, d, &mut received);
    }
    assert_eq!(received, 7);
}

#[test]
fn base_time_out_of_range_does_not_calibrate() {
    let mut edges = frame_edges(300, 0xFF, 8);
    let mut decoder = HomeWizardDecoder::new();
    assert_eq!(feed(&mut decoder, &edges), 0);
    edges = frame_edges(240, 0xFF, 8);
    let mut decoder = HomeWizardDecoder::new();
    assert_eq!(feed(&mut decoder, &edges), 0);
}

#[test]
fn broken_bit_aborts_the_frame() {
    let mut edges = frame_edges(260, 0b1010, 4);
    // a long pause where the second half of a bit belongs: two long pauses in a row
    edges[3] = (Level::High, 5 * 260);
    edges[5] = (Level::High, 5 * 260);
    let mut decoder = HomeWizardDecoder::new();
    assert_eq!(feed(&mut decoder, &edges), 0);
}

#[test]
fn decodes_within_tolerance() {
    // base time 260: short pauses below 780, long ones from 780 below 1820,
    // a start pause from 1820 below 3120, an end pause from 3120
    let code = 0b1011_0010u32;
    let mut edges = vec![(Level::Low, 260u32), (Level::High, 2000)];
    for i in (0..8).rev() {
        if code & (1 << i) != 0 {
            edges.extend([(Level::Low, 300), (Level::High, 1700), (Level::Low, 260), (Level::High, 100)]);
        } else {
            edges.extend([(Level::Low, 200), (Level::High, 779), (Level::Low, 300), (Level::High, 780)]);
        }
    }
    edges.extend([(Level::Low, 300), (Level::High, 3120)]);
    let mut decoder = HomeWizardDecoder::new();
    assert_eq!(feed(&mut decoder, &edges), code);
}

#[test]
fn no_code_without_a_new_start() {
    let mut edges = frame_edges(260, 0xAB, 8);
    // after the end pause, a second frame without its start pause
    let again = frame_edges(260, 0xCD, 8);
    edges.extend(again[2..].iter().cloned());
    let mut decoder = HomeWizardDecoder::new();
    let mut received = 0u32;
    let mut codes = Vec::new();
    for &(level, d) in &edges {
        let before = received;
        decoder.interrupt(level, d, &mut received);
        if received != before {
            codes.push(received);
        }
    }
    assert_eq!(codes, vec![0xAB]);
}
