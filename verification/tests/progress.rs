use clipfarmer::progress::{bytes, pulse, timestamp, BAR_WIDTH};

#[test]
fn progress_formats_media_timestamps() {
    assert_eq!(timestamp(0), "00:00");
    assert_eq!(timestamp(65_999), "01:05");
    assert_eq!(timestamp(3_661_000), "01:01:01");
}

#[test]
fn formats_byte_counts() {
    assert_eq!(bytes(512), "512 B");
    assert_eq!(bytes(1_536), "1.5 KiB");
    assert_eq!(bytes(2_097_152), "2.0 MiB");
}

#[test]
fn pulse_is_a_fixed_width_bouncing_bar() {
    assert_eq!(pulse(0).chars().count(), BAR_WIDTH);
    assert_eq!(pulse(0).matches('█').count(), 4);
    assert_ne!(pulse(0), pulse(5));
    assert_eq!(pulse(0), pulse((BAR_WIDTH - 4) * 2));
}

#[test]
fn byte_counts_match_float_formatting() {
    let cases: [u64; 14] = [
        0,
        1,
        1_023,
        1_024,
        1_280,
        1_331,
        1_433,
        10_000,
        1_048_575,
        1_048_576,
        5_000_000_000,
        (1 << 53) + 1,
        u64::MAX,
        987_654_321_987,
    ];
    for n in cases {
        let v = n as f64;
        let expected = if v >= 1_073_741_824.0 {
            format!("{:.1} GiB", v / 1_073_741_824.0)
        } else if v >= 1_048_576.0 {
            format!("{:.1} MiB", v / 1_048_576.0)
        } else if v >= 1_024.0 {
            format!("{:.1} KiB", v / 1_024.0)
        } else {
            format!("{v:.0} B")
        };
        assert_eq!(bytes(n), expected, "{n}");
    }
}

#[test]
fn timestamps_clamp_negatives_and_pad_hours() {
    assert_eq!(timestamp(-5_000), "00:00");
    assert_eq!(timestamp(360_000_000), "100:00:00");
}

#[test]
fn pulse_bounces_back() {
    assert_eq!(pulse(16), "░░░░░░░░░░░░░░░░████");
    assert_eq!(pulse(17), pulse(15));
}
