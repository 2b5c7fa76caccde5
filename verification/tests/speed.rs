use hud_cli::sensors::fmt_speed;
use hud_cli::ui::{freq_str, reading_text};

fn float_reference(bps: u64) -> String {
    let mb = bps as f64 / 1_048_576.0;
    if mb >= 1.0 {
        format!("{:.1} MB/s", mb)
    } else {
        format!("{:.0} KB/s", bps as f64 / 1024.0)
    }
}

#[test]
fn speed_small_values_in_kib() {
    assert_eq!(fmt_speed(0), "0 KB/s");
    assert_eq!(fmt_speed(511), "0 KB/s");
    assert_eq!(fmt_speed(1024), "1 KB/s");
    assert_eq!(fmt_speed(1048575), "1024 KB/s");
}

#[test]
fn speed_ties_round_to_even() {
    assert_eq!(fmt_speed(512), "0 KB/s");
    assert_eq!(fmt_speed(1536), "2 KB/s");
    assert_eq!(fmt_speed(2560), "2 KB/s");
    assert_eq!(fmt_speed(1310720), "1.2 MB/s");
    assert_eq!(fmt_speed(1835008), "1.8 MB/s");
}

#[test]
fn speed_large_values_in_mib() {
    assert_eq!(fmt_speed(1048576), "1.0 MB/s");
    assert_eq!(fmt_speed(1572864), "1.5 MB/s");
    assert_eq!(fmt_speed(10 * 1048576), "10.0 MB/s");
    assert_eq!(fmt_speed(u64::MAX), "17592186044416.0 MB/s");
}

#[test]
fn speed_matches_float_formatting() {
    let mut samples: Vec<u64> = Vec::new();
    for b in 0..5000u64 {
        samples.push(b);
        samples.push(b * 97 + 1_000_000);
        samples.push(b * 262_144);
        samples.push(b * 104_857 + 3);
    }
    let mut x: u64 = 0x9E37_79B9_7F4A_7C15;
    for _ in 0..20000 {
        x ^= x << 13;
        x ^= x >> 7;
        x ^= x << 17;
        samples.push(x);
        samples.push(x >> 20);
        samples.push(x >> 40);
    }
    for k in 0..12u32 {
        let base = 1u64 << (53 + k.min(10));
        for d in 0..64u64 {
            samples.push(base + d * (1u64 << k.min(10)) / 2);
            samples.push(base.wrapping_sub(d));
        }
    }
    for &b in &samples {
        assert_eq!(fmt_speed(b), float_reference(b), "bps = {}", b);
    }
}

#[test]
fn freq_text() {
    assert_eq!(freq_str(0), "N/A");
    assert_eq!(freq_str(3600), "3600 MHz");
    assert_eq!(freq_str(7), "7 MHz");
}

#[test]
fn reading_texts() {
    assert_eq!(reading_text(Some(65), " °C"), "65 °C");
    assert_eq!(reading_text(Some(0), "%"), "0%");
    assert_eq!(reading_text(None, " MHz"), "N/A");
    assert_eq!(reading_text(Some(1905), " MHz"), "1905 MHz");
}
