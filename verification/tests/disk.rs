use frostscan::services::disk::{disk_label, system_disks};

#[test]
fn labels_name_and_mount_point() {
    assert_eq!(disk_label(&"Data".to_string(), &"/mnt/data".to_string()), "Data (/mnt/data)");
    assert_eq!(disk_label(&"   ".to_string(), &"/".to_string()), "/");
    assert_eq!(disk_label(&String::new(), &"C:\\".to_string()), "C:\\");
}

#[test]
fn disks_are_sorted_by_label() {
    let raw = vec![
        ("zeta".to_string(), "/z".to_string()),
        ("".to_string(), "/".to_string()),
        ("alpha".to_string(), "/a".to_string()),
    ];
    let disks = system_disks(&raw);
    let labels: Vec<_> = disks.iter().map(|d| d.label.as_str()).collect();
    assert_eq!(labels, vec!["/", "alpha (/a)", "zeta (/z)"]);
    assert_eq!(disks[1].mount_point, "/a");
}

#[test]
fn only_unicode_white_space_counts_as_blank() {
    assert_eq!(disk_label(&"\u{3000}\t".to_string(), &"/m".to_string()), "/m");
    assert_eq!(disk_label(&"\u{200B}".to_string(), &"/m".to_string()), "\u{200B} (/m)");
}
