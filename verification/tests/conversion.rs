use code_review_agent::utils::conversion::{bytes_to_human_readable, tokens_to_human_readable};

/// The size as the float computation prints it.
fn bytes_reference(bytes: u64) -> String {
    let units = ["B", "KiB", "MiB", "GiB", "TiB"];
    let mut size = bytes as f64;
    let mut unit_index = 0;
    while size >= 1024.0 && unit_index < units.len() - 1 {
        size /= 1024.0;
        unit_index += 1;
    }
    format!("{} {}", size.round(), units[unit_index])
}

/// The token count as the float computation prints it.
fn tokens_reference(tokens: u32) -> String {
    if tokens < 1000 {
        return tokens.to_string();
    }
    let units = ["", "k", "M"];
    let mut size = tokens as f64;
    let mut unit_index = 0;
    while size >= 1000.0 && unit_index < units.len() - 1 {
        size /= 1000.0;
        unit_index += 1;
    }
    format!("{:.2}{}", size, units[unit_index])
}

#[test]
fn bytes_examples() {
    assert_eq!(bytes_to_human_readable(0), "0 B");
    assert_eq!(bytes_to_human_readable(5), "5 B");
    assert_eq!(bytes_to_human_readable(1023), "1023 B");
    assert_eq!(bytes_to_human_readable(1024), "1 KiB");
    assert_eq!(bytes_to_human_readable(1536), "2 KiB");
    assert_eq!(bytes_to_human_readable(1535), "1 KiB");
    assert_eq!(bytes_to_human_readable(1048575), "1024 KiB");
    assert_eq!(bytes_to_human_readable(1048576), "1 MiB");
    assert_eq!(bytes_to_human_readable(1099511627776), "1 TiB");
    assert_eq!(bytes_to_human_readable(u64::MAX), "16777216 TiB");
}

#[test]
fn bytes_match_float_computation() {
    let mut samples: Vec<u64> = vec![u64::MAX, u64::MAX - 1, (1 << 53) + 1, (1 << 53) - 1, 1 << 60];
    for k in 0..64u32 {
        let p = 1u64 << k;
        samples.extend([p - 1, p, p + 1, p + p / 2, p + p / 2 - 1]);
    }
    let mut x: u64 = 0x9E37_79B9_7F4A_7C15;
    for _ in 0..20000 {
        x ^= x << 13;
        x ^= x >> 7;
        x ^= x << 17;
        samples.push(x >> (x % 64));
    }
    for b in samples {
        assert_eq!(bytes_to_human_readable(b), bytes_reference(b), "bytes {b}");
    }
}

#[test]
fn tokens_examples() {
    assert_eq!(tokens_to_human_readable(0), "0");
    assert_eq!(tokens_to_human_readable(999), "999");
    assert_eq!(tokens_to_human_readable(1000), "1.00k");
    assert_eq!(tokens_to_human_readable(1500), "1.50k");
    assert_eq!(tokens_to_human_readable(999999), "1000.00k");
    assert_eq!(tokens_to_human_readable(1000000), "1.00M");
    assert_eq!(tokens_to_human_readable(2300000), "2.30M");
}

#[test]
fn tokens_match_float_computation() {
    let mut samples: Vec<u32> = vec![u32::MAX, 1125, 1375, 1625, 1875, 2005, 1005, 12345, 999_995, 999_994, 999_999_999];
    for t in 990..20000u32 {
        samples.push(t);
    }
    for t in (995_000..1_010_000u32).step_by(7) {
        samples.push(t);
    }
    let mut x: u32 = 0x9E37_79B9;
    for _ in 0..50000 {
        x ^= x << 13;
        x ^= x >> 17;
        x ^= x << 5;
        samples.push(x >> (x % 32));
    }
    for t in samples {
        assert_eq!(tokens_to_human_readable(t), tokens_reference(t), "tokens {t}");
    }
}
