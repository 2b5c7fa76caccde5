use hud_cli::sensors::{EnergyMeter, EnergySample};

fn sample_parts(s: Option<EnergySample>) -> Option<(u64, u64)> {
    s.map(|s| (s.ticks, s.elapsed_ns))
}

#[test]
fn unit_from_power_unit_register() {
    assert_eq!(EnergyMeter::new(Some(0x000A_0E03)).unit_exponent(), 14);
    assert_eq!(EnergyMeter::new(Some(0x0000_1000)).unit_exponent(), 16);
    assert_eq!(EnergyMeter::new(Some(0xFFFF_FFFF_FFFF_FFFF)).unit_exponent(), 31);
    assert_eq!(EnergyMeter::new(None).unit_exponent(), 14);
}

#[test]
fn first_read_gives_no_sample() {
    let mut m = EnergyMeter::new(None);
    assert!(m.sample(12345, 1_000).is_none());
}

#[test]
fn consecutive_reads_give_delta() {
    let mut m = EnergyMeter::new(None);
    m.sample(1_000, 0);
    assert_eq!(sample_parts(m.sample(17_384, 1_000_000_000)), Some((16_384, 1_000_000_000)));
}

#[test]
fn wrapped_counter_is_accounted_for() {
    let mut m = EnergyMeter::new(None);
    m.sample(0xFFFF_FF00, 10);
    assert_eq!(sample_parts(m.sample(0x100, 30)), Some((0x200, 20)));
}

#[test]
fn upper_register_bits_are_ignored() {
    let mut m = EnergyMeter::new(None);
    m.sample(0xABCD_0000_0000_0010, 5);
    assert_eq!(sample_parts(m.sample(0x1234_0000_0000_0030, 6)), Some((0x20, 1)));
}

#[test]
fn no_time_passed_gives_none_but_updates() {
    let mut m = EnergyMeter::new(None);
    m.sample(100, 50);
    assert!(m.sample(200, 50).is_none());
    assert_eq!(sample_parts(m.sample(260, 80)), Some((60, 30)));
}
