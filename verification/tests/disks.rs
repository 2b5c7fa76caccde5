use hud_cli::disks::{select_disks, DiskReading};

fn reading(mount: &str, total: u64, available: u64) -> DiskReading {
    DiskReading { mount_point: mount.to_string(), total_space: total, available_space: available }
}

fn labels(r: &[hud_cli::disks::DiskUsage]) -> Vec<String> {
    r.iter().map(|d| d.label.clone()).collect()
}

#[test]
fn small_volumes_are_skipped() {
    let r = select_disks(&vec![reading("E:\\", 999_999_999, 0), reading("C:\\", 1_000_000_000, 0)]);
    assert_eq!(labels(&r), vec!["C:"]);
    assert_eq!(r[0].used, 1_000_000_000);
    assert_eq!(r[0].total, 1_000_000_000);
}

#[test]
fn three_largest_in_label_order() {
    let r = select_disks(&vec![
        reading("F:\\", 4_000_000_000, 1_000_000_000),
        reading("D:\\", 2_000_000_000, 1_000_000_000),
        reading("E:\\", 3_000_000_000, 1_000_000_000),
        reading("C:\\", 1_500_000_000, 1_000_000_000),
    ]);
    assert_eq!(labels(&r), vec!["D:", "E:", "F:"]);
    assert_eq!(r[2].used, 3_000_000_000);
    assert_eq!(r[0].total, 2_000_000_000);
}

#[test]
fn equal_sizes_prefer_earlier_volumes() {
    let r = select_disks(&vec![
        reading("Z:\\", 2_000_000_000, 0),
        reading("Y:\\", 2_000_000_000, 0),
        reading("X:\\", 2_000_000_000, 0),
        reading("A:\\", 2_000_000_000, 0),
    ]);
    assert_eq!(labels(&r), vec!["X:", "Y:", "Z:"]);
}

#[test]
fn used_never_negative() {
    let r = select_disks(&vec![reading("/", 2_000_000_000, 3_000_000_000)]);
    assert_eq!(r[0].used, 0);
    assert_eq!(r[0].label, "/");
}

#[test]
fn labels_take_two_characters() {
    let r = select_disks(&vec![reading("/home", 2_000_000_000, 0), reading("/", 2_000_000_000, 0), reading("Ä:x", 2_000_000_000, 0)]);
    assert_eq!(labels(&r), vec!["/", "/h", "Ä:"]);
}

#[test]
fn equal_labels_larger_first() {
    let r = select_disks(&vec![
        reading("C:\\a", 2_000_000_000, 0),
        reading("B:\\", 2_000_000_000, 0),
        reading("C:\\b", 3_000_000_000, 0),
    ]);
    assert_eq!(labels(&r), vec!["B:", "C:", "C:"]);
    assert_eq!(r[1].total, 3_000_000_000);
    assert_eq!(r[2].total, 2_000_000_000);
}

#[test]
fn no_disks() {
    assert!(select_disks(&vec![]).is_empty());
}
