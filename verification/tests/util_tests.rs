use dm_core::util;

#[test]
fn human_size_bytes() {
    assert_eq!(util::human_size(0), "0 B");
    assert_eq!(util::human_size(100), "100 B");
    assert_eq!(util::human_size(512), "512 B");
    assert_eq!(util::human_size(1023), "1023 B");
}

#[test]
fn human_size_kib() {
    assert_eq!(util::human_size(1024), "1.0 KiB");
    assert_eq!(util::human_size(1536), "1.5 KiB");
    assert_eq!(util::human_size(10240), "10.0 KiB");
}

#[test]
fn human_size_mib() {
    assert_eq!(util::human_size(1024 * 1024), "1.0 MiB");
    assert_eq!(util::human_size(5 * 1024 * 1024), "5.0 MiB");
    assert_eq!(util::human_size(5_500_000), "5.2 MiB");
}

fn with_floats(bytes: u64) -> String {
    if bytes < 1024 {
        format!("{bytes} B")
    } else if bytes < 1024 * 1024 {
        format!("{:.1} KiB", bytes as f64 / 1024.0)
    } else {
        format!("{:.1} MiB", bytes as f64 / (1024.0 * 1024.0))
    }
}

#[test]
fn human_size_rounds_halves_to_even() {
    assert_eq!(util::human_size(1280), "1.2 KiB");
    assert_eq!(util::human_size(1792), "1.8 KiB");
    assert_eq!(util::human_size(1048575), "1024.0 KiB");
    assert_eq!(util::human_size(1024 * 1024 + 256 * 1024), "1.2 MiB");
}

#[test]
fn human_size_agrees_with_floating_point_formatting() {
    let mut samples: Vec<u64> = vec![
        0, 1, 9, 10, 1023, 1024, 1025, 1075, 1076, 1126, 1127, 1128, 1279, 1280, 1281, 1791, 1792,
        1793, 1048575, 1048576, 1048577, 5_500_000, u64::MAX, u64::MAX - 1, 1 << 53, (1 << 53) + 1,
        (1 << 53) - 1, 1 << 63, (1 << 63) + 1024, (1 << 63) + 1025,
    ];
    let mut x: u64 = 0x2545_F491_4F6C_DD1D;
    for shift in 0..64u32 {
        for _ in 0..200 {
            x ^= x << 13;
            x ^= x >> 7;
            x ^= x << 17;
            samples.push(x >> shift);
        }
        samples.push((1u64 << shift).wrapping_sub(1));
        samples.push(1u64 << shift);
        samples.push((1u64 << shift) + (1u64 << shift) / 4);
    }
    for m in 1..5000u64 {
        samples.push(m * 262144);
        samples.push(m * 256);
    }
    for bytes in samples {
        assert_eq!(util::human_size(bytes), with_floats(bytes), "bytes = {bytes}");
    }
}

#[test]
fn decimal_writes_numbers() {
    assert_eq!(util::decimal(0), "0");
    assert_eq!(util::decimal(7), "7");
    assert_eq!(util::decimal(10), "10");
    assert_eq!(util::decimal(1234567890), "1234567890");
    assert_eq!(util::decimal(u64::MAX), "18446744073709551615");
}

#[test]
fn version_from_output_prefers_stdout() {
    assert_eq!(util::version_from_output("  Python 3.12.0\n", "ignored"), Some("Python 3.12.0".to_string()));
    assert_eq!(util::version_from_output("   \n", " uv 0.4 \n"), Some("uv 0.4".to_string()));
    assert_eq!(util::version_from_output("", "  "), None);
}

#[test]
fn dora_version_is_last_word_of_first_line() {
    assert_eq!(util::dora_version_from_output("dora-cli 0.4.1\ndora-message: 0.7.0\n"), "0.4.1");
    assert_eq!(util::dora_version_from_output("  0.3.9  \r\nmore"), "0.3.9");
    assert_eq!(util::dora_version_from_output(""), "unknown");
    assert_eq!(util::dora_version_from_output("\nsecond line"), "unknown");
}

#[test]
fn running_dataflows_are_the_lines_of_the_list() {
    assert_eq!(
        util::running_dataflows(0, "  uuid-1 running\nuuid-2 running\n\n"),
        vec!["uuid-1 running".to_string(), "uuid-2 running".to_string()]
    );
    assert!(util::running_dataflows(0, "No running dataflow.\n").is_empty());
    assert!(util::running_dataflows(1, "uuid-1 running").is_empty());
    assert!(util::running_dataflows(0, "   ").is_empty());
}
