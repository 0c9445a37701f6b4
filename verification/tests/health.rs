use store_system::health::format_bytes;

#[test]
fn test_format_bytes() {
    assert_eq!(format_bytes(0), "0.00 B");
    assert_eq!(format_bytes(1024), "1.00 KB");
    assert_eq!(format_bytes(1024 * 1024), "1.00 MB");
    assert_eq!(format_bytes(1024 * 1024 * 1024), "1.00 GB");
}

#[test]
fn format_bytes_matches_float_rendering() {
    for b in [1u64, 999, 1023, 1536, 10_000, 1_048_575, 5_000_000_000, 1u64 << 40, (1u64 << 40) * 3 / 2, u64::MAX, 123_456_789_012_345] {
        let mut size = b as f64;
        let units = ["B", "KB", "MB", "GB", "TB"];
        let mut i = 0;
        while size >= 1024.0 && i < units.len() - 1 {
            size /= 1024.0;
            i += 1;
        }
        assert_eq!(format_bytes(b), format!("{:.2} {}", size, units[i]), "bytes = {}", b);
    }
}

#[test]
fn format_bytes_exact_values() {
    assert_eq!(format_bytes(1536), "1.50 KB");
    assert_eq!(format_bytes(1023), "1023.00 B");
    assert_eq!(format_bytes(1u64 << 40), "1.00 TB");
    assert_eq!(format_bytes(1u64 << 50), "1024.00 TB");
}
