use openfront_core::codec::{compress_value_for_db, decompress_value_from_db, MAX_INPUT};

#[test]
fn test_decompress_value_from_db() {
    let within_1percent = |a: u64, b: u64| {
        let diff = if a > b { a - b } else { b - a };
        diff <= (a / 100) // 1% tolerance
    };
    assert!(within_1percent(decompress_value_from_db(-27081), 10));
    assert!(within_1percent(decompress_value_from_db(-21822), 100));
    assert!(within_1percent(decompress_value_from_db(-16382), 1000));
    assert!(within_1percent(decompress_value_from_db(-5462), 100_000));
    assert!(within_1percent(decompress_value_from_db(3817), 5_000_000));
    assert!(within_1percent(decompress_value_from_db(16383), 1_000_000_000));
}

#[test]
fn round_trip_stays_within_one_percent() {
    for v in [10u64, 100, 1000, 100_000, 5_000_000, 1_000_000_000] {
        let decoded = decompress_value_from_db(compress_value_for_db(v));
        let diff = if decoded > v { decoded - v } else { v - decoded };
        assert!(diff <= v / 100, "value {v} decoded to {decoded}");
    }
}

#[test]
fn zero_round_trips_exactly() {
    assert_eq!(compress_value_for_db(0), -32768);
    assert_eq!(decompress_value_from_db(compress_value_for_db(0)), 0);
}

#[test]
fn encoder_matches_reference_codes() {
    // Codes produced by the time-series writer for these counters.
    assert_eq!(compress_value_for_db(0), -32768);
    assert_eq!(compress_value_for_db(1), -31124);
    assert_eq!(compress_value_for_db(10), -27081);
    assert_eq!(compress_value_for_db(100), -21822);
    assert_eq!(compress_value_for_db(1000), -16382);
    assert_eq!(compress_value_for_db(100_000), -5462);
    assert_eq!(compress_value_for_db(5_000_000), 3817);
    assert_eq!(compress_value_for_db(1_000_000_000), 16383);
}

#[test]
fn encoder_is_monotone_on_samples() {
    let samples = [
        0u64,
        1,
        2,
        9,
        10,
        11,
        999,
        1000,
        123_456,
        999_999_999,
        MAX_INPUT - 1,
        MAX_INPUT,
    ];
    let mut last = i16::MIN;
    for v in samples {
        let code = compress_value_for_db(v);
        assert!(code >= last, "code for {v} fell below its predecessor");
        last = code;
    }
}

#[test]
fn values_above_the_ceiling_clamp() {
    assert_eq!(
        compress_value_for_db(MAX_INPUT),
        compress_value_for_db(u64::MAX)
    );
    assert_eq!(compress_value_for_db(MAX_INPUT), 32767);
}

#[test]
fn decoder_is_monotone_over_every_code() {
    // The code space is finite; walk all of it.
    let mut last: u64 = 0;
    for code in i16::MIN..=i16::MAX {
        let decoded = decompress_value_from_db(code);
        assert!(
            decoded >= last,
            "code {code} decoded to {decoded}, below its predecessor {last}"
        );
        last = decoded;
    }
}
