use lampctl::lamp::{
    LampStatus, Reaction, CMD_BRIGHTER, CMD_COLDER, CMD_DARKER, CMD_OFF, CMD_ON, CMD_WARMER, LAMP_ID,
    WALL_SWITCH_OFF, WALL_SWITCH_ON,
};

fn lamp() -> LampStatus {
    LampStatus::new(24)
}

fn state(l: &LampStatus) -> (u8, u8, bool) {
    (l.bright(), l.red(), l.is_on())
}

fn codes(cmd: u32, n: usize) -> Vec<u32> {
    vec![LAMP_ID + cmd; n]
}

#[test]
fn new_drives_lamp_to_known_state() {
    let mut l = lamp();
    assert_eq!(state(&l), (0, 15, false));
    let mut expected = codes(CMD_WARMER, 15);
    expected.extend(codes(CMD_DARKER, 15));
    expected.push(LAMP_ID + CMD_OFF);
    assert_eq!(l.take_outbox(), expected);
    assert!(l.take_outbox().is_empty());
    assert_eq!(l.transmitter().pin(), 24);
    assert_eq!(l.transmitter().send(LAMP_ID, 24).len(), 6 * 25);
}

#[test]
fn set_red_steps_and_brightens() {
    let mut l = lamp();
    l.take_outbox();
    l.set_red(12);
    assert_eq!(state(&l), (3, 12, false));
    assert_eq!(l.take_outbox(), codes(CMD_COLDER, 3));
    l.set_red(14);
    assert_eq!(state(&l), (5, 14, false));
    assert_eq!(l.take_outbox(), codes(CMD_WARMER, 2));
    l.set_red(14);
    assert_eq!(state(&l), (5, 14, false));
    assert!(l.take_outbox().is_empty());
}

#[test]
fn set_red_brightness_stops_at_fifteen() {
    let mut l = lamp();
    l.set_red(0);
    assert_eq!(state(&l), (15, 0, false));
}

#[test]
fn dim_to_steps() {
    let mut l = lamp();
    l.take_outbox();
    l.dim_to(6);
    assert_eq!(state(&l), (6, 15, false));
    assert_eq!(l.take_outbox(), codes(CMD_BRIGHTER, 6));
    l.dim_to(2);
    assert_eq!(state(&l), (2, 15, false));
    assert_eq!(l.take_outbox(), codes(CMD_DARKER, 4));
}

#[test]
fn switch_sends_on_and_off() {
    let mut l = lamp();
    l.take_outbox();
    l.switch(true);
    assert!(l.is_on());
    l.switch(false);
    assert!(!l.is_on());
    assert_eq!(l.take_outbox(), vec![LAMP_ID + CMD_ON, LAMP_ID + CMD_OFF]);
}

#[test]
fn update_rf_follows_other_remotes() {
    let mut l = lamp();
    l.take_outbox();
    l.update_rf(LAMP_ID + CMD_ON);
    assert_eq!(state(&l), (0, 15, true));
    l.update_rf(LAMP_ID + CMD_WARMER);
    assert_eq!(state(&l), (1, 15, true));
    l.update_rf(LAMP_ID + CMD_COLDER);
    assert_eq!(state(&l), (2, 14, true));
    l.update_rf(LAMP_ID + CMD_BRIGHTER);
    assert_eq!(state(&l), (3, 14, true));
    l.update_rf(LAMP_ID + CMD_DARKER);
    assert_eq!(state(&l), (2, 14, true));
    l.update_rf(LAMP_ID + 1);
    assert_eq!(state(&l), (2, 14, true));
    l.update_rf(LAMP_ID + CMD_OFF);
    assert_eq!(state(&l), (2, 14, false));
    assert!(l.take_outbox().is_empty());
}

#[test]
fn update_rf_stops_at_the_ends() {
    let mut l = lamp();
    for _ in 0..20 {
        l.update_rf(LAMP_ID + CMD_DARKER);
    }
    assert_eq!(l.bright(), 0);
    for _ in 0..20 {
        l.update_rf(LAMP_ID + CMD_COLDER);
    }
    assert_eq!(state(&l), (15, 0, false));
    for _ in 0..20 {
        l.update_rf(LAMP_ID + CMD_WARMER);
    }
    assert_eq!(state(&l), (15, 15, false));
}

#[test]
fn network_byte_sets_tint_brightness_and_on() {
    let mut l = lamp();
    l.take_outbox();
    l.on_network_byte(0x35);
    assert_eq!(state(&l), (2, 5, true));
    let mut expected = codes(CMD_COLDER, 10);
    expected.extend(codes(CMD_DARKER, 8));
    expected.push(LAMP_ID + CMD_ON);
    assert_eq!(l.take_outbox(), expected);
}

#[test]
fn network_byte_with_zero_brightness_switches_off() {
    let mut l = lamp();
    l.on_network_byte(0xF0);
    assert!(l.is_on());
    l.take_outbox();
    l.on_network_byte(0x07);
    assert_eq!(state(&l), (14, 0, false));
    assert_eq!(l.take_outbox(), vec![LAMP_ID + CMD_OFF]);
}

#[test]
fn wall_switch_off_while_off_gives_dark_red() {
    let mut l = lamp();
    l.on_network_byte(0x07);
    l.dim_to(9);
    l.set_red(3);
    l.take_outbox();
    assert!(matches!(l.on_radio_code(WALL_SWITCH_OFF), Reaction::DarkRed));
    assert_eq!(state(&l), (0, 15, true));
}

#[test]
fn wall_switch_off_while_on_switches_off() {
    let mut l = lamp();
    l.switch(true);
    l.take_outbox();
    assert!(matches!(l.on_radio_code(WALL_SWITCH_OFF), Reaction::SwitchedOff));
    assert_eq!(state(&l), (0, 15, false));
    assert_eq!(l.take_outbox(), vec![LAMP_ID + CMD_OFF]);
}

#[test]
fn wall_switch_on_while_on_gives_full_brightness() {
    let mut l = lamp();
    l.switch(true);
    assert!(matches!(l.on_radio_code(WALL_SWITCH_ON), Reaction::FullBrightness));
    assert_eq!(state(&l), (15, 15, true));
}

#[test]
fn wall_switch_on_while_off_dims() {
    let mut l = lamp();
    l.take_outbox();
    assert!(matches!(l.on_radio_code(WALL_SWITCH_ON), Reaction::Dimmed));
    assert_eq!(state(&l), (4, 0, true));
    let mut expected = codes(CMD_COLDER, 15);
    expected.extend(codes(CMD_DARKER, 11));
    expected.push(LAMP_ID + CMD_ON);
    assert_eq!(l.take_outbox(), expected);
}

#[test]
fn radio_lamp_codes_and_unknown_codes() {
    let mut l = lamp();
    assert!(matches!(l.on_radio_code(LAMP_ID + CMD_ON), Reaction::LampCode));
    assert!(l.is_on());
    assert!(matches!(l.on_radio_code(14434999), Reaction::LampCode));
    assert!(matches!(l.on_radio_code(14435000), Reaction::Unknown));
    assert!(matches!(l.on_radio_code(12345), Reaction::Unknown));
    assert_eq!(state(&l), (0, 15, true));
}

#[test]
fn a_follower_applying_the_sent_codes_ends_in_the_same_state() {
    let mut l = lamp();
    let mut follower = lamp();
    l.take_outbox();
    for byte in [0x9Cu8, 0x31, 0x00, 0xF0, 0x5A] {
        l.on_network_byte(byte);
        for code in l.take_outbox() {
            follower.update_rf(code);
        }
        assert_eq!(state(&l), state(&follower));
    }
    l.on_radio_code(WALL_SWITCH_ON);
    l.on_radio_code(WALL_SWITCH_OFF);
    l.on_radio_code(WALL_SWITCH_OFF);
    for code in l.take_outbox() {
        follower.update_rf(code);
    }
    assert_eq!(state(&l), state(&follower));
}

#[test]
fn overflowing_requests_are_refused() {
    let mut l = lamp();
    l.dim_to(255);
    assert_eq!(state(&l), (255, 15, false));
    assert!(!l.accepts_network_byte(0x10));
    assert!(l.accepts_network_byte(0x1F));
    assert!(l.accepts_network_byte(0x05));
    assert!(!l.accepts_radio_code(LAMP_ID + CMD_BRIGHTER));
    assert!(!l.accepts_radio_code(LAMP_ID + CMD_COLDER));
    assert!(l.accepts_radio_code(LAMP_ID + CMD_DARKER));
    assert!(l.accepts_radio_code(WALL_SWITCH_OFF));
    assert!(!l.accepts_radio_code(WALL_SWITCH_ON));
    assert!(l.accepts_radio_code(99));
    l.switch(true);
    assert!(l.accepts_radio_code(WALL_SWITCH_ON));
}

#[test]
fn ordinary_requests_are_accepted() {
    let l = lamp();
    for byte in 0..=255u8 {
        assert!(l.accepts_network_byte(byte));
    }
    for code in [WALL_SWITCH_OFF, WALL_SWITCH_ON, LAMP_ID + CMD_WARMER, 1, u32::MAX] {
        assert!(l.accepts_radio_code(code));
    }
}
