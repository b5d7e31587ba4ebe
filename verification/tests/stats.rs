use wspr_qso::stats::Stats;

#[test]
fn stats_count_distinct_calls_case_insensitively() {
    let mut s = Stats::new();
    s.record(&b"K9XYZ".to_vec());
    s.record(&b"k9xyz".to_vec());
    s.record(&b"W1AAA".to_vec());
    assert_eq!(s.logged, 3);
    assert_eq!(s.contacts.len(), 2);
    assert_eq!(
        String::from_utf8(s.summary_line()).unwrap(),
        "Logged 3 QSOs with 2 unique call signs"
    );
}

#[test]
fn stats_start_empty() {
    let s = Stats::new();
    assert_eq!(s.logged, 0);
    assert_eq!(
        String::from_utf8(s.summary_line()).unwrap(),
        "Logged 0 QSOs with 0 unique call signs"
    );
}
