use lampctl::home_wizard::Level;
use lampctl::lamp::{CMD_ON, LAMP_ID};
use lampctl::receiver::EdgeReceiver;
use lampctl::rcswitch::Transmitter;

#[test]
fn jitter_is_ignored() {
    let mut r = EdgeReceiver::new(1000);
    assert!(r.accepts(1100));
    assert_eq!(r.on_edge(Level::Low, 1100), 0);
    // time is still counted from 1000
    assert!(!r.accepts(999));
    assert!(r.accepts(1000));
}

#[test]
fn time_must_not_run_backwards() {
    let r = EdgeReceiver::new(5000);
    assert!(!r.accepts(4999));
    assert!(r.accepts(5000));
}

#[test]
fn rc_switch_transmission_arrives() {
    let code = LAMP_ID + CMD_ON;
    let pulses = Transmitter::new(0, 24, 7).send(code, 24);
    let mut now = 1_000_000u64;
    let mut r = EdgeReceiver::new(now);
    let mut got = Vec::new();
    for p in &pulses {
        now += p.high_us as u64;
        assert!(r.accepts(now));
        let c = r.on_edge(Level::Low, now);
        if c != 0 {
            got.push(c);
        }
        now += p.low_us as u64;
        assert!(r.accepts(now));
        let c = r.on_edge(Level::High, now);
        if c != 0 {
            got.push(c);
        }
    }
    assert!(!got.is_empty());
    assert!(got.iter().all(|&c| c == code));
}

#[test]
fn home_wizard_frame_arrives() {
    let t = 260u64;
    let code = 0xC58D_0012u32;
    let mut lows = vec![10 * t];
    for i in (0..32).rev() {
        if code & (1 << i) != 0 {
            lows.extend([5 * t, t]);
        } else {
            lows.extend([t, 5 * t]);
        }
    }
    lows.push(40 * t);
    let mut now = 0u64;
    let mut r = EdgeReceiver::new(now);
    let mut last = 0u32;
    for low in lows {
        now += t;
        let c = r.on_edge(Level::Low, now);
        if c != 0 {
            last = c;
        }
        now += low;
        let c = r.on_edge(Level::High, now);
        if c != 0 {
            last = c;
        }
    }
    assert_eq!(last, code);
}
