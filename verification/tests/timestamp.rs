use helix_base::timestamp::{format_timestamp, log_timestamp, timestamp_of_reading};

#[test]
fn timestamp_matches_known_instants() {
    // epoch
    assert_eq!(format_timestamp(0, 0), "1970-01-01T00:00:00.000");
    // next day, and time-of-day + millis
    assert_eq!(
        format_timestamp(86_400 + 3661, 7),
        "1970-01-02T01:01:01.007"
    );
    // a leap day: 2024-02-29T12:30:45.123 UTC == 1709209845 s
    assert_eq!(
        format_timestamp(1_709_209_845, 123),
        "2024-02-29T12:30:45.123"
    );
    // 2000-03-01 (the algorithm's era boundary)
    assert_eq!(format_timestamp(951_868_800, 0), "2000-03-01T00:00:00.000");
}

#[test]
fn timestamps_at_the_edges_of_their_fields() {
    assert_eq!(format_timestamp(86_399, 999), "1970-01-01T23:59:59.999");
    assert_eq!(format_timestamp(253_402_300_799, 0), "9999-12-31T23:59:59.000");
    assert_eq!(format_timestamp(253_402_300_800, 0), "10000-01-01T00:00:00.000");
    assert_eq!(format_timestamp(0, 1234), "1970-01-01T00:00:00.1234");
    assert_eq!(format_timestamp(u64::MAX, 0), "584554051223-11-09T07:00:15.000");
}

#[test]
fn the_current_timestamp_has_the_log_layout() {
    let ts = log_timestamp();
    let bytes = ts.as_bytes();
    assert_eq!(bytes.len(), 23, "{ts}");
    for (i, sep) in [(4, b'-'), (7, b'-'), (10, b'T'), (13, b':'), (16, b':'), (19, b'.')] {
        assert_eq!(bytes[i], sep, "{ts}");
    }
    assert!(ts.as_str() >= "2020");
}

#[test]
fn a_clock_before_the_epoch_reads_as_the_epoch() {
    assert_eq!(timestamp_of_reading(None), "1970-01-01T00:00:00.000");
    assert_eq!(timestamp_of_reading(Some((86_400 + 3661, 7))), "1970-01-02T01:01:01.007");
}

#[test]
fn timestamps_sort_like_their_instants() {
    let readings = [
        (0, 0),
        (0, 1),
        (59, 999),
        (60, 0),
        (86_399, 999),
        (86_400, 0),
        (951_868_799, 999),
        (951_868_800, 0),
        (1_709_209_845, 123),
        (253_402_300_799, 999),
    ];
    for pair in readings.windows(2) {
        let (a, b) = (pair[0], pair[1]);
        assert!(format_timestamp(a.0, a.1) < format_timestamp(b.0, b.1), "{a:?} {b:?}");
    }
}
