use hud_cli::clock::ClockReading;
use hud_cli::disks::DiskReading;
use hud_cli::sensors::{
    battery_percent, cpu_frequency, push_hist, push_hist_raw, total_traffic, PollReadings,
    SensorHistory, HIST_LEN,
};

#[test]
fn push_hist_caps_percentages() {
    let mut h = Vec::new();
    push_hist(&mut h, 42);
    push_hist(&mut h, 250);
    push_hist(&mut h, 100);
    assert_eq!(h, vec![42, 100, 100]);
}

#[test]
fn push_hist_raw_keeps_values() {
    let mut h = Vec::new();
    push_hist_raw(&mut h, 5_000_000);
    push_hist_raw(&mut h, 0);
    assert_eq!(h, vec![5_000_000, 0]);
}

#[test]
fn history_keeps_latest_window() {
    let mut h = Vec::new();
    for v in 0..200u64 {
        push_hist_raw(&mut h, v);
        assert!(h.len() <= HIST_LEN);
        assert_eq!(*h.last().unwrap(), v);
    }
    assert_eq!(h.len(), HIST_LEN);
    let expected: Vec<u64> = (120..200).collect();
    assert_eq!(h, expected);
}

#[test]
fn overfull_history_drops_only_one() {
    let mut h: Vec<u64> = (0..90).collect();
    push_hist_raw(&mut h, 90);
    assert_eq!(h.len(), 90);
    assert_eq!(h[0], 1);
    assert_eq!(h[89], 90);
}

#[test]
fn battery_unknown_is_none() {
    assert_eq!(battery_percent(255), None);
    assert_eq!(battery_percent(0), Some(0));
    assert_eq!(battery_percent(87), Some(87));
    assert_eq!(battery_percent(254), Some(254));
}

#[test]
fn cpu_frequency_first_core() {
    assert_eq!(cpu_frequency(&vec![]), 0);
    assert_eq!(cpu_frequency(&vec![3600, 4100]), 3600);
}

#[test]
fn traffic_sums_interfaces() {
    assert_eq!(total_traffic(&vec![]), 0);
    assert_eq!(total_traffic(&vec![100, 250, 0, 7]), 357);
}

fn readings(cpu: u64, gpu: Option<u32>, rx: Vec<u64>, battery: u8) -> PollReadings {
    PollReadings {
        cpu_usage_pct: cpu,
        cpu_freqs_mhz: vec![2900, 3100],
        gpu_usage: gpu,
        gpu_vram_pct: 40,
        ram_pct: 63,
        net_received: rx,
        net_transmitted: vec![10, 20],
        disks: vec![
            DiskReading { mount_point: "D:\\".to_string(), total_space: 2_000_000_000, available_space: 500_000_000 },
            DiskReading { mount_point: "C:\\".to_string(), total_space: 500_000_000_000, available_space: 100_000_000_000 },
        ],
        battery_status: battery,
    }
}

#[test]
fn record_builds_poll_result() {
    let mut hist = SensorHistory::new();
    let clock = ClockReading { hour: 9, minute: 5, month: 3, day: 14 };
    let r1 = hist.record(&readings(37, Some(12), vec![1000, 24], 255), &clock);
    assert_eq!(r1.time, "09:05");
    assert_eq!(r1.date, "03月14日");
    assert_eq!(r1.cpu_freq, 2900);
    assert_eq!(r1.battery, None);
    assert_eq!(r1.net_down, 1024);
    assert_eq!(r1.net_up, 30);
    assert_eq!(r1.disks.len(), 2);
    assert_eq!(r1.disks[0].label, "C:");
    assert_eq!(r1.disks[0].used, 400_000_000_000);
    assert_eq!(r1.disks[1].label, "D:");
    assert_eq!(r1.cpu_hist, vec![37]);
    assert_eq!(r1.gpu_hist, vec![12]);
    assert_eq!(r1.gpu_vram_hist, vec![40]);
    assert_eq!(r1.ram_hist, vec![63]);
    assert_eq!(r1.net_down_hist, vec![1024]);
    assert_eq!(r1.net_up_hist, vec![30]);

    let r2 = hist.record(&readings(120, None, vec![], 55), &clock);
    assert_eq!(r2.battery, Some(55));
    assert_eq!(r2.net_down, 0);
    assert_eq!(r2.cpu_hist, vec![37, 100]);
    assert_eq!(r2.gpu_hist, vec![12, 0]);
    assert_eq!(r2.net_down_hist, vec![1024, 0]);
}

#[test]
fn poll_reads_a_valid_clock() {
    let mut hist = SensorHistory::new();
    let r = hist.poll(&readings(1, None, vec![1], 100));
    assert!(r.clock.hour < 24 && r.clock.minute < 60);
    assert!(r.clock.month >= 1 && r.clock.month <= 12);
    assert!(r.clock.day >= 1 && r.clock.day <= 31);
    assert_eq!(r.time.len(), 5);
    assert_eq!(r.battery, Some(100));
}
