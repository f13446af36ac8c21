use juk_com::led::{pulse, Pulse, RGB};

const ZERO: Pulse = Pulse { high: 28, low: 64 };
const ONE: Pulse = Pulse { high: 56, low: 48 };
const END: Pulse = Pulse { high: 0, low: 0 };

#[test]
fn pulse_timings_at_80_mhz() {
    assert_eq!(pulse(false), ZERO);
    assert_eq!(pulse(true), ONE);
}

#[test]
fn new_keeps_the_parts() {
    let c = RGB::new(1, 2, 3);
    assert_eq!((c.r, c.g, c.b), (1, 2, 3));
}

#[test]
fn pulses_go_green_red_blue_lowest_bit_first() {
    let mut pulses = [END; 25];
    RGB::new(0xff, 0x00, 0xa5).to_pulses(&mut pulses);
    for pos in 0..8 {
        assert_eq!(pulses[pos], ZERO);
        assert_eq!(pulses[8 + pos], ONE);
    }
    let blue = [ONE, ZERO, ONE, ZERO, ZERO, ONE, ZERO, ONE];
    assert_eq!(&pulses[16..24], &blue[..]);
    assert_eq!(pulses[24], END);
}

#[test]
fn single_bits_land_at_their_position() {
    let mut pulses = [END; 25];
    RGB::new(0x80, 0x01, 0x10).to_pulses(&mut pulses);
    for i in 0..24 {
        let expected = if i == 0 || i == 15 || i == 20 { ONE } else { ZERO };
        assert_eq!(pulses[i], expected, "pulse {}", i);
    }
    assert_eq!(pulses[24], END);
}

#[test]
fn the_end_marker_is_left_alone() {
    let marker = Pulse { high: 7, low: 9 };
    let mut pulses = [marker; 25];
    RGB::new(0, 0, 0).to_pulses(&mut pulses);
    assert_eq!(pulses[24], marker);
    assert!(pulses[..24].iter().all(|p| *p == ZERO));
}
