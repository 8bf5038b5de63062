use regex::Regex;
use snapkeep::name::is_snapshot_name;

const NAME_PATTERN: &str = "^\\d{4}(0[1-9]|1[012])(0[1-9]|[12][0-9]|3[01])(-)(?:(?:([01]?\\d|2[0-3]))?([0-5]?\\d))?([0-5]?\\d)$";

#[test]
fn accepts_well_formed_names() {
    assert!(is_snapshot_name("20210601-120000"));
    assert!(is_snapshot_name("20210601-140000"));
    assert!(is_snapshot_name("19991231-235959"));
    assert!(is_snapshot_name("20200229-000000"));
    // shorter times of day are accepted too
    assert!(is_snapshot_name("20200101-5"));
    assert!(is_snapshot_name("20200101-0959"));
}

#[test]
fn rejects_malformed_names() {
    assert!(!is_snapshot_name("not-a-timestamp"));
    assert!(!is_snapshot_name(""));
    assert!(!is_snapshot_name("20201301-120000"));
    assert!(!is_snapshot_name("20201200-120000"));
    assert!(!is_snapshot_name("20201232-120000"));
    assert!(!is_snapshot_name("20201201-240000"));
    assert!(!is_snapshot_name("20201201-126000"));
    assert!(!is_snapshot_name("20201201-120060"));
    assert!(!is_snapshot_name("20201201120000"));
    assert!(!is_snapshot_name("20201201-1200000"));
    assert!(!is_snapshot_name("2020120-120000"));
    assert!(!is_snapshot_name("20201201-"));
    assert!(!is_snapshot_name("2020é201-120000"));
}

#[test]
fn agrees_with_the_pattern_on_ascii_names() {
    let re = Regex::new(NAME_PATTERN).unwrap();
    let tails = [
        "", "0", "5", "9", "00", "59", "60", "99", "000", "123", "1260", "2359", "2400", "0000",
        "00000", "12345", "23595", "24000", "000000", "235959", "240000", "196000", "0000000",
        "a", "12a", "12:00",
    ];
    let dates = ["20210601", "00000101", "99991231", "20211301", "20210600", "20210132", "2021061"];
    for d in dates.iter() {
        for t in tails.iter() {
            let s = format!("{}-{}", d, t);
            assert_eq!(is_snapshot_name(&s), re.is_match(&s), "{}", s);
        }
    }
}
