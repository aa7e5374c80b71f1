use frostscan::ui::format::format_size;

fn float_reference(size: u64) -> String {
    const KB: f64 = 1024.0;
    const MB: f64 = KB * 1024.0;
    const GB: f64 = MB * 1024.0;
    const TB: f64 = GB * 1024.0;
    let s = size as f64;
    if s >= TB {
        format!("{:.1} TB", s / TB)
    } else if s >= GB {
        format!("{:.1} GB", s / GB)
    } else if s >= MB {
        format!("{:.1} MB", s / MB)
    } else if s >= KB {
        format!("{:.1} KB", s / KB)
    } else {
        format!("{} B", size)
    }
}

#[test]
fn formats_bytes_without_unit_conversion() {
    assert_eq!(format_size(0), "0 B");
    assert_eq!(format_size(512), "512 B");
}

#[test]
fn formats_kilobytes_and_megabytes() {
    assert_eq!(format_size(1024), "1.0 KB");
    assert_eq!(format_size(1024 * 1024), "1.0 MB");
}

#[test]
fn formats_gigabytes_and_terabytes() {
    assert_eq!(format_size(1024_u64.pow(3)), "1.0 GB");
    assert_eq!(format_size(1024_u64.pow(4)), "1.0 TB");
}

#[test]
fn formats_unit_boundaries() {
    assert_eq!(format_size(1023), "1023 B");
    assert_eq!(format_size(1536), "1.5 KB");
    assert_eq!(format_size(1024 * 1024 - 1), "1024.0 KB");
    assert_eq!(format_size(u64::MAX), "16777216.0 TB");
}

#[test]
fn rounds_ties_to_even_like_float_formatting() {
    // 1.25 KB and 1.75 KB are exact ties at one decimal.
    assert_eq!(format_size(1280), float_reference(1280));
    assert_eq!(format_size(1792), float_reference(1792));
    assert_eq!(format_size(1280), "1.2 KB");
    assert_eq!(format_size(1792), "1.8 KB");
}

#[test]
fn agrees_with_float_formatting_on_many_sizes() {
    let mut samples: Vec<u64> = Vec::new();
    for i in 0..5000u64 {
        samples.push(i * 37);
        samples.push(i * 104_857 + 3);
        samples.push(i.wrapping_mul(0x9E37_79B9_7F4A_7C15));
    }
    for shift in 0..64u32 {
        let p = 1u64 << shift;
        for d in [0u64, 1, 2, 3, 511, 512, 513, 1023, 1024, 1025, 2047, 2048, 2049] {
            samples.push(p.wrapping_add(d));
            samples.push(p.wrapping_sub(d));
        }
    }
    for k in 1..4096u64 {
        // Sizes near ties of the tenths, in every unit.
        for unit in [1u64 << 10, 1 << 20, 1 << 30, 1 << 40] {
            samples.push(k * unit / 20);
            samples.push((k * unit / 20).wrapping_add(1));
        }
        samples.push((k << 38).wrapping_sub(1000));
        samples.push((k << 52).wrapping_add(1024));
    }
    for size in samples {
        assert_eq!(format_size(size), float_reference(size), "size {}", size);
    }
}
