use jbzip2::progress::format_bytes;

fn by_division(bytes: u64) -> String {
    let kb: u64 = 1024;
    let mb = kb * 1024;
    let gb = mb * 1024;
    let tb = gb * 1024;
    if bytes < kb {
        format!("{} B", bytes)
    } else if bytes < mb {
        format!("{:.2} KB", bytes as f64 / kb as f64)
    } else if bytes < gb {
        format!("{:.2} MB", bytes as f64 / mb as f64)
    } else if bytes < tb {
        format!("{:.2} GB", bytes as f64 / gb as f64)
    } else {
        format!("{:.2} TB", bytes as f64 / tb as f64)
    }
}

#[test]
fn format_bytes_below_one_kilobyte_is_plain() {
    assert_eq!(format_bytes(0), "0 B");
    assert_eq!(format_bytes(7), "7 B");
    assert_eq!(format_bytes(1023), "1023 B");
}

#[test]
fn format_bytes_scales_by_1024() {
    assert_eq!(format_bytes(1024), "1.00 KB");
    assert_eq!(format_bytes(1536), "1.50 KB");
    assert_eq!(format_bytes(1048576), "1.00 MB");
    assert_eq!(format_bytes(500000), "488.28 KB");
    assert_eq!(format_bytes(100000000), "95.37 MB");
    assert_eq!(format_bytes(1073741824), "1.00 GB");
    assert_eq!(format_bytes(1099511627776), "1.00 TB");
}

#[test]
fn format_bytes_rounds_a_tie_to_the_even_hundredth() {
    // 1152 / 1024 = 1.125 and 1408 / 1024 = 1.375 exactly.
    assert_eq!(format_bytes(1152), "1.12 KB");
    assert_eq!(format_bytes(1408), "1.38 KB");
}

#[test]
fn format_bytes_just_below_a_unit_rounds_up_within_the_lower_unit() {
    assert_eq!(format_bytes(1048575), "1024.00 KB");
    assert_eq!(format_bytes(1073741823), "1024.00 MB");
}

#[test]
fn format_bytes_of_the_largest_count() {
    assert_eq!(format_bytes(u64::MAX), "16777216.00 TB");
    assert_eq!(format_bytes(u64::MAX), by_division(u64::MAX));
}

#[test]
fn format_bytes_agrees_with_division_on_small_counts() {
    let mut n: u64 = 0;
    while n < 300000 {
        assert_eq!(format_bytes(n), by_division(n), "count {}", n);
        n += 1;
    }
}

#[test]
fn format_bytes_agrees_with_division_across_the_range() {
    let mut state: u64 = 0x9e3779b97f4a7c15;
    let mut i: u32 = 0;
    while i < 200000 {
        state ^= state << 13;
        state ^= state >> 7;
        state ^= state << 17;
        let n = state >> (i % 64);
        assert_eq!(format_bytes(n), by_division(n), "count {}", n);
        i += 1;
    }
}

#[test]
fn format_bytes_agrees_with_division_where_doubles_are_sparse() {
    let limit: u64 = 1 << 53;
    let mut shift: u32 = 0;
    while shift < 11 {
        let base = limit << shift;
        let mut k: u64 = 0;
        while k < 5000 {
            let n = base.wrapping_add(k);
            assert_eq!(format_bytes(n), by_division(n), "count {}", n);
            let below = base.wrapping_sub(k + 1);
            assert_eq!(format_bytes(below), by_division(below), "count {}", below);
            k += 1;
        }
        shift += 1;
    }
}
