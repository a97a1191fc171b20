use clipfarmer::cli::{next_value, parse_timestamp, usage, Invocation, Options, OptionsError, TimestampError};

fn args(values: &[&str]) -> Vec<String> {
    values.iter().map(|v| (*v).to_owned()).collect()
}

#[test]
fn parses_clock_timestamps() {
    assert_eq!(parse_timestamp("01:23:45").unwrap(), 5_025_000);
    assert_eq!(parse_timestamp("1:24:15.500").unwrap(), 5_055_500);
    assert_eq!(parse_timestamp("90").unwrap(), 90_000);
}

#[test]
fn timestamp_refusals() {
    assert_eq!(parse_timestamp("1:2:3:4"), Err(TimestampError::Invalid));
    assert_eq!(parse_timestamp("1:60"), Err(TimestampError::Invalid));
    assert_eq!(parse_timestamp("60:00"), Err(TimestampError::Invalid));
    assert_eq!(parse_timestamp("-5"), Err(TimestampError::Invalid));
    assert_eq!(parse_timestamp("x"), Err(TimestampError::Malformed));
    assert_eq!(parse_timestamp("a:10"), Err(TimestampError::Malformed));
    assert_eq!(parse_timestamp("0.0005").unwrap(), 1);
    assert_eq!(parse_timestamp("0.0004").unwrap(), 0);
    assert_eq!(parse_timestamp(".5").unwrap(), 500);
}

#[test]
fn timestamps_agree_with_float_arithmetic_on_plain_inputs() {
    for value in ["0", "59.999", "1:00", "10:30.25", "2:03:04.5", "123", "0.001", "99:59:59.999"] {
        let parts: Vec<&str> = value.split(':').collect();
        let seconds: f64 = parts.last().unwrap().parse().unwrap();
        let minutes: i64 = if parts.len() >= 2 { parts[parts.len() - 2].parse().unwrap() } else { 0 };
        let hours: i64 = if parts.len() == 3 { parts[0].parse().unwrap() } else { 0 };
        let expected = ((hours as f64 * 3_600.0 + minutes as f64 * 60.0 + seconds) * 1_000.0).round() as i64;
        assert_eq!(parse_timestamp(value).unwrap(), expected, "{value}");
    }
}

#[test]
fn options_are_read_from_the_command_line() {
    let parsed = Options::parse(&args(&[
        "--url",
        "https://www.twitch.tv/videos/1",
        "--start",
        "1:00",
        "--end",
        "1:30",
        "--no-chat",
        "--publish",
    ]))
    .unwrap();
    match parsed {
        Invocation::Run(o) => {
            assert_eq!((o.start_ms, o.end_ms), (60_000, 90_000));
            assert_eq!(o.data_dir, "./data");
            assert!(o.no_chat && o.publish && !o.no_audio && !o.no_visuals);
        },
        Invocation::Help => panic!("expected a run"),
    }
    assert!(matches!(Options::parse(&args(&["--help"])), Ok(Invocation::Help)));
}

#[test]
fn option_refusals() {
    assert_eq!(Options::parse(&args(&["--url"])).unwrap_err(), OptionsError::MissingValue("--url".to_owned()));
    assert_eq!(Options::parse(&args(&["--bogus"])).unwrap_err(), OptionsError::Unknown("--bogus".to_owned()));
    assert_eq!(Options::parse(&args(&[])).unwrap_err(), OptionsError::Missing("--url".to_owned()));
    assert_eq!(
        Options::parse(&args(&["--url", "https://example.com/v/1", "--start", "0", "--end", "10"])).unwrap_err(),
        OptionsError::NotAVod
    );
    assert_eq!(
        Options::parse(&args(&["--url", "https://twitch.tv/videos/1", "--start", "10", "--end", "5"])).unwrap_err(),
        OptionsError::EndBeforeStart
    );
    assert_eq!(
        Options::parse(&args(&["--url", "https://twitch.tv/videos/1", "--start", "0", "--end", "4"])).unwrap_err(),
        OptionsError::TooShort
    );
    assert_eq!(
        Options::parse(&args(&["--url", "https://twitch.tv/videos/1", "--start", "zz", "--end", "4"])).unwrap_err(),
        OptionsError::Timestamp(TimestampError::Malformed)
    );
}

#[test]
fn values_follow_their_options() {
    let a = args(&["--url", "x"]);
    assert_eq!(next_value(&a, 0, "--url").unwrap(), "x");
    assert_eq!(next_value(&a, 1, "--url").unwrap_err(), "--url");
    assert!(usage().starts_with("Usage: cargo run"));
    assert!(usage().contains("\\\n  --url https://www.twitch.tv/videos/123456789"));
}

#[test]
fn seconds_may_carry_an_exponent_as_a_float_parse_reads_them() {
    assert_eq!(parse_timestamp("1e3").unwrap(), 1_000_000);
    assert_eq!(parse_timestamp("1.5e1").unwrap(), 15_000);
    assert_eq!(parse_timestamp("1E-3").unwrap(), 1);
    assert_eq!(parse_timestamp("5e-4").unwrap(), 1);
    assert_eq!(parse_timestamp("0:5e1").unwrap(), 50_000);
    assert_eq!(parse_timestamp("0:6e1"), Err(TimestampError::Invalid));
    assert_eq!(parse_timestamp("-0e5").unwrap(), 0);
    assert_eq!(parse_timestamp("1e30").unwrap(), i64::MAX);
    assert_eq!(parse_timestamp("1e-30").unwrap(), 0);
    assert_eq!(parse_timestamp("1e"), Err(TimestampError::Malformed));
    assert_eq!(parse_timestamp("e3"), Err(TimestampError::Malformed));
}

#[test]
fn infinities_and_not_a_number_are_refused_as_invalid() {
    assert_eq!(parse_timestamp("inf"), Err(TimestampError::Invalid));
    assert_eq!(parse_timestamp("-Infinity"), Err(TimestampError::Invalid));
    assert_eq!(parse_timestamp("NaN"), Err(TimestampError::Invalid));
    assert_eq!(parse_timestamp("1:nan"), Err(TimestampError::Invalid));
}
