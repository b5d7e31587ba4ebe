use wspr_qso::adif::{banner, emit_record};
use wspr_qso::power::Power;
use wspr_qso::qso::Qso;

fn sample_qso() -> Qso {
    Qso {
        call_op: b"AB1CDE".to_vec(),
        call_ct: b"K9XYZ".to_vec(),
        grid_op: b"FN42".to_vec(),
        grid_ct: b"EN50".to_vec(),
        time_first: 1_600_000_000,
        time_last: 1_600_000_120,
        snr_op: -10,
        snr_ct: -5,
        power_op: Power::from_dbm(37),
        power_ct: Power::from_dbm(30),
        freq_op: 14_097_100,
        freq_ct: 14_097_050,
        drift_op: 0,
        drift_ct: -1,
        distance: 1500,
        spots: vec![101, 202, 303],
    }
}

#[test]
fn record_matches_expected_bytes() {
    let r = emit_record(&sample_qso());
    let expected = "<QSO_DATE:8>20200913<TIME_ON:4>1226<QSO_DATE_OFF:8>20200913\
<TIME_OFF:4>1230<OPERATOR:6>AB1CDE<CALL:5>K9XYZ<MY_GRIDSQUARE:4>FN42\
<GRIDSQUARE:4>EN50<RST_RCVD:3>-10<RST_SENT:3>-05<FREQ:9>14.097100\
<RX_FREQ:9>14.097050<BAND:3>20m<BAND_RX:3>20m<TX_PWR:6>5.0119<RX_PWR:6>1.0000\
<DISTANCE:4>1500<QSLMSG:87>2-way WSPR spot on 20 m with 1.0 W (30 dBm), \
SNR -5 dB, drift -1 Hz/s, distance 1500 km<COMMENT:87>2-way WSPR spot on \
20 m with 1.0 W (30 dBm), SNR -5 dB, drift -1 Hz/s, distance 1500 km\
<NOTES:30>WSPRnet spot IDs 101, 202, 303<MODE:4>WSPR<QSO_RANDOM:1>Y<EOR>";
    assert_eq!(String::from_utf8(r).unwrap(), expected);
}

#[test]
fn record_omits_band_tags_for_unclassifiable_frequencies() {
    let mut q = sample_qso();
    // 1 MHz lies between the named bands
    q.freq_op = 1_000_000;
    let r = String::from_utf8(emit_record(&q)).unwrap();
    assert!(!r.contains("<BAND:"));
    assert!(r.contains("<BAND_RX:3>20m"));
    // the raw frequency substitutes in the commentary
    assert!(r.contains("<QSLMSG:103>2-way WSPR spot on 1000000 Hz (RX 20 m) with"));
}

#[test]
fn record_length_counts_bytes_not_characters() {
    let mut q = sample_qso();
    // a whole-number power first, all ASCII
    q.power_ct = Power::from_dbm(10);
    let r = String::from_utf8(emit_record(&q)).unwrap();
    let msg = "2-way WSPR spot on 20 m with 10 mW (10 dBm), SNR -5 dB, drift -1 Hz/s, distance 1500 km";
    assert_eq!(msg.len(), 87);
    assert!(r.contains(&format!("<QSLMSG:{}>{}", msg.len(), msg)));
    // and a power in microwatts really does carry the micro sign
    q.power_ct = Power::from_dbm(-3);
    let r = String::from_utf8(emit_record(&q)).unwrap();
    let msg = "2-way WSPR spot on 20 m with 500 µW (-3 dBm), SNR -5 dB, drift -1 Hz/s, distance 1500 km";
    assert_eq!(msg.len(), 89);
    assert_eq!(msg.chars().count(), 88);
    assert!(r.contains(&format!("<QSLMSG:{}>{}", msg.len(), msg)));
}

#[test]
fn banner_matches_expected_bytes() {
    let r = banner(
        &b"AB1CDE".to_vec(),
        &b"20200913 122640".to_vec(),
        &b"wspr_qso".to_vec(),
        &b"0.1.0".to_vec(),
    );
    let expected = "Mutual WSPR spots for AB1CDE\n<ADIF_VER:5>3.1.1\
<CREATED_TIMESTAMP:15>20200913 122640<PROGRAMID:8>wspr_qso\
<PROGRAMVERSION:5>0.1.0<EOH>";
    assert_eq!(String::from_utf8(r).unwrap(), expected);
}

#[test]
fn record_date_rolls_over_midnight() {
    let mut q = sample_qso();
    // ends 80 seconds before midnight: the off time falls on the next day
    q.time_first = 1_599_999_000;
    q.time_last = 1_600_041_520;
    let r = String::from_utf8(emit_record(&q)).unwrap();
    assert!(r.contains("<QSO_DATE:8>20200913<TIME_ON:4>1210"));
    assert!(r.contains("<QSO_DATE_OFF:8>20200914<TIME_OFF:4>0000"));
}
