use helix_base::calendar::civil_from_days;

#[test]
fn civil_dates_of_known_days() {
    assert_eq!(civil_from_days(0), (1970, 1, 1));
    assert_eq!(civil_from_days(-1), (1969, 12, 31));
    assert_eq!(civil_from_days(11016), (2000, 2, 29));
    assert_eq!(civil_from_days(11017), (2000, 3, 1));
    assert_eq!(civil_from_days(-25509), (1900, 2, 28));
    assert_eq!(civil_from_days(-25508), (1900, 3, 1));
    assert_eq!(civil_from_days(47541), (2100, 3, 1));
    assert_eq!(civil_from_days(-135140), (1600, 1, 1));
    assert_eq!(civil_from_days(-719162), (1, 1, 1));
    assert_eq!(civil_from_days(2932896), (9999, 12, 31));
}

#[test]
fn consecutive_days_are_consecutive_dates() {
    let mut previous = civil_from_days(-800_000);
    for z in -799_999..800_000i64 {
        let (y, m, d) = civil_from_days(z);
        let (py, pm, pd) = previous;
        let next_of_previous = if (y, m) == (py, pm) {
            d == pd + 1
        } else if y == py {
            m == pm + 1 && d == 1
        } else {
            y == py + 1 && m == 1 && d == 1 && pm == 12
        };
        assert!(next_of_previous, "{z}: {previous:?} -> {:?}", (y, m, d));
        previous = (y, m, d);
    }
}

#[test]
fn extreme_days_do_not_overflow() {
    let (y, m, d) = civil_from_days(i64::MAX - 719_468);
    assert!(y > 0 && (1..=12).contains(&m) && (1..=31).contains(&d));
    let (y, m, d) = civil_from_days(i64::MIN);
    assert!(y < 0 && (1..=12).contains(&m) && (1..=31).contains(&d));
}
