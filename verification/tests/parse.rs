use wspr_qso::parse::{parse_spot, FieldName, ParseError};

#[test]
fn parse_full_line() {
    let line = b"123,1600000000,AB1CDE,FN42,-7,14.097123,K9XYZ,EN50,37,-1,1500";
    let s = parse_spot(line).unwrap();
    assert_eq!(s.id, 123);
    assert_eq!(s.timestamp, 1600000000);
    assert_eq!(s.call_rx, b"AB1CDE".to_vec());
    assert_eq!(s.grid_rx, b"FN42".to_vec());
    assert_eq!(s.snr, -7);
    assert_eq!(s.frequency, 14_097_123);
    assert_eq!(s.call_tx, b"K9XYZ".to_vec());
    assert_eq!(s.grid_tx, b"EN50".to_vec());
    assert_eq!(s.power.dbm, 37);
    assert_eq!(s.drift, -1);
    assert_eq!(s.distance, 1500);
}

#[test]
fn parse_bad_snr_names_the_field() {
    let line = b"1,120000,AB1CDE,FN42,bad,14.0971,K9XYZ,EN50,37,0,100";
    let e = parse_spot(line).unwrap_err();
    assert_eq!(e, ParseError::Malformed(FieldName::Snr));
    assert_eq!(e.message(), "Malformed SNR field");
}

#[test]
fn parse_failure_does_not_interrupt_later_lines() {
    let bad = b"1,120000,AB1CDE,FN42,oops,14.0971,K9XYZ,EN50,37,0,100";
    assert!(parse_spot(bad).is_err());
    let good = b"2,120000,AB1CDE,FN42,-5,14.0971,K9XYZ,EN50,37,0,100";
    let s = parse_spot(good).unwrap();
    assert_eq!(s.id, 2);
    assert_eq!(s.frequency, 14_097_100);
}

#[test]
fn parse_missing_field_names_the_first_absent_one() {
    let e = parse_spot(b"1,2,AB1CDE").unwrap_err();
    assert_eq!(e, ParseError::Missing(FieldName::ReporterGrid));
    let e = parse_spot(b"1,2,AB1CDE,FN42,-5,14.0971,K9XYZ,EN50,37,0").unwrap_err();
    assert_eq!(e, ParseError::Missing(FieldName::Distance));
}

#[test]
fn parse_frequency_rounds_to_nearest_hz() {
    // half a hertz rounds away from zero
    let s = parse_spot(b"1,0,A,B,0,0.0000005,C,D,0,0,0").unwrap();
    assert_eq!(s.frequency, 1);
    let s = parse_spot(b"1,0,A,B,0,0.0000004,C,D,0,0,0").unwrap();
    assert_eq!(s.frequency, 0);
    let s = parse_spot(b"1,0,A,B,0,7.0401234,C,D,0,0,0").unwrap();
    assert_eq!(s.frequency, 7_040_123);
    let s = parse_spot(b"1,0,A,B,0,7.0401235,C,D,0,0,0").unwrap();
    assert_eq!(s.frequency, 7_040_124);
}

#[test]
fn parse_frequency_forms() {
    assert_eq!(parse_spot(b"1,0,A,B,0,7,C,D,0,0,0").unwrap().frequency, 7_000_000);
    assert_eq!(parse_spot(b"1,0,A,B,0,7.,C,D,0,0,0").unwrap().frequency, 7_000_000);
    assert_eq!(parse_spot(b"1,0,A,B,0,.5,C,D,0,0,0").unwrap().frequency, 500_000);
    let e = parse_spot(b"1,0,A,B,0,.,C,D,0,0,0").unwrap_err();
    assert_eq!(e, ParseError::Malformed(FieldName::Frequency));
    let e = parse_spot(b"1,0,A,B,0,7.0.1,C,D,0,0,0").unwrap_err();
    assert_eq!(e, ParseError::Malformed(FieldName::Frequency));
}

#[test]
fn parse_signed_bounds() {
    assert_eq!(parse_spot(b"1,0,A,B,+10,7,C,D,-128,0,0").unwrap().power.dbm, -128);
    assert_eq!(parse_spot(b"1,0,A,B,+10,7,C,D,127,0,0").unwrap().snr, 10);
    let e = parse_spot(b"1,0,A,B,128,7,C,D,0,0,0").unwrap_err();
    assert_eq!(e, ParseError::Malformed(FieldName::Snr));
    let e = parse_spot(b"1,0,A,B,-129,7,C,D,0,0,0").unwrap_err();
    assert_eq!(e, ParseError::Malformed(FieldName::Snr));
}

#[test]
fn parse_numeric_overflow_is_malformed() {
    let e = parse_spot(b"99999999999999999999999,0,A,B,0,7,C,D,0,0,0").unwrap_err();
    assert_eq!(e, ParseError::Malformed(FieldName::Id));
    let e = parse_spot(b"1,0,A,B,0,7,C,D,0,0,70000").unwrap_err();
    assert_eq!(e, ParseError::Malformed(FieldName::Distance));
}

#[test]
fn parse_empty_call_fields_are_kept() {
    let s = parse_spot(b"1,0,,,0,7,,,0,0,0").unwrap();
    assert_eq!(s.call_rx, Vec::<u8>::new());
    assert_eq!(s.grid_tx, Vec::<u8>::new());
}
