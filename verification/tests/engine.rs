use wspr_qso::adif::emit_record;
use wspr_qso::engine::{Engine, IngestOutcome};
use wspr_qso::power::Power;
use wspr_qso::qso::Qso;
use wspr_qso::spot::Spot;

fn spot(
    id: u64,
    ts: u64,
    call_rx: &str,
    grid_rx: &str,
    snr: i8,
    freq: u64,
    call_tx: &str,
    grid_tx: &str,
    dbm: i8,
    drift: i8,
    distance: u16,
) -> Spot {
    Spot {
        id,
        timestamp: ts,
        call_rx: call_rx.as_bytes().to_vec(),
        grid_rx: grid_rx.as_bytes().to_vec(),
        snr,
        frequency: freq,
        call_tx: call_tx.as_bytes().to_vec(),
        grid_tx: grid_tx.as_bytes().to_vec(),
        power: Power::from_dbm(dbm),
        drift,
        distance,
    }
}

fn engine() -> Engine {
    Engine::new(b"AB1CDE".to_vec(), Vec::new())
}

// self heard the contact
fn spot_rx(id: u64, ts: u64, snr: i8) -> Spot {
    spot(id, ts, "AB1CDE", "FN42", snr, 14_097_100, "K9XYZ", "EN50", 30, -1, 1500)
}

// the contact heard self
fn spot_tx(id: u64, ts: u64, snr: i8) -> Spot {
    spot(id, ts, "K9XYZ", "EN50", snr, 14_097_050, "AB1CDE", "FN42", 37, 0, 1500)
}

fn processed(outcome: IngestOutcome) -> Vec<Qso> {
    match outcome {
        IngestOutcome::Processed { emitted } => emitted,
        _ => panic!("expected the report to be processed"),
    }
}

fn run_pair_and_flush(first: Spot, second: Spot) -> Vec<u8> {
    let mut e = engine();
    assert!(processed(e.ingest(first)).is_empty());
    assert!(processed(e.ingest(second)).is_empty());
    assert_eq!(e.qsos.len(), 1);
    // an unrelated report three cycles later forces finalization
    let flush = spot(99, 120_000 + 360, "AB1CDE", "FN42", -9, 7_040_000, "W1AAA", "JN39", 23, 0, 600);
    let emitted = processed(e.ingest(flush));
    assert_eq!(emitted.len(), 1);
    assert_eq!(e.qsos.len(), 0);
    emit_record(&emitted[0])
}

#[test]
fn reciprocal_pair_emits_exactly_once_either_order() {
    let r1 = run_pair_and_flush(spot_rx(101, 120_000, -5), spot_tx(202, 120_060, -10));
    let r2 = run_pair_and_flush(spot_tx(202, 120_060, -10), spot_rx(101, 120_000, -5));
    assert_eq!(r1, r2);
    assert!(!r1.is_empty());
}

#[test]
fn matching_is_case_insensitive() {
    let mut e = engine();
    let a = spot(1, 120_000, "ab1cde", "fn42", -5, 14_097_100, "k9xyz", "en50", 30, 0, 100);
    let b = spot(2, 120_060, "K9XYZ", "EN50", -10, 14_097_050, "AB1CDE", "FN42", 37, 0, 100);
    assert!(processed(e.ingest(a)).is_empty());
    assert!(processed(e.ingest(b)).is_empty());
    assert_eq!(e.qsos.len(), 1);
    // the aggregate keeps the self side's verbatim spelling
    assert_eq!(e.qsos[0].1.call_op, b"ab1cde".to_vec());
    assert_eq!(e.qsos[0].1.call_ct, b"k9xyz".to_vec());
}

#[test]
fn stale_report_is_unmatchable_after_three_cycles() {
    let mut e = engine();
    // placed at cycle 1000
    assert!(processed(e.ingest(spot_rx(1, 120_000, -5))).is_empty());
    // an unrelated report advances the current cycle to 1003 and prunes
    let advance = spot(9, 120_360, "AB1CDE", "FN42", -9, 7_040_000, "W1AAA", "JN39", 23, 0, 600);
    assert!(processed(e.ingest(advance)).is_empty());
    assert_eq!(e.rx.len(), 1);
    // the reciprocal counterpart arrives too late: no aggregate forms
    assert!(processed(e.ingest(spot_tx(2, 120_360, -10))).is_empty());
    assert_eq!(e.qsos.len(), 0);
}

#[test]
fn report_two_cycles_behind_still_matches() {
    let mut e = engine();
    assert!(processed(e.ingest(spot_rx(1, 120_000, -5))).is_empty());
    // cycle 1002: the cycle-1000 report is still within the window
    assert!(processed(e.ingest(spot_tx(2, 120_240, -10))).is_empty());
    assert_eq!(e.qsos.len(), 1);
}

#[test]
fn aggregate_finalized_within_two_cycles_of_last_report() {
    let mut e = engine();
    assert!(processed(e.ingest(spot_rx(1, 120_000, -5))).is_empty());
    assert!(processed(e.ingest(spot_tx(2, 120_060, -10))).is_empty());
    // a non-matching report at cycle 1003 triggers emission
    let later = spot(9, 120_360, "AB1CDE", "FN42", -9, 7_040_000, "W1AAA", "JN39", 23, 0, 600);
    let emitted = processed(e.ingest(later));
    assert_eq!(emitted.len(), 1);
    assert_eq!(e.qsos.len(), 0);
    // and it is emitted exactly once: later reports emit nothing more
    let more = spot(10, 120_480, "AB1CDE", "FN42", -9, 7_040_000, "W2BBB", "JN39", 23, 0, 600);
    assert!(processed(e.ingest(more)).is_empty());
}

#[test]
fn merge_keeps_best_snr_and_lowest_power() {
    let mut e = engine();
    // pair one: snr_op = -10, snr_ct = -5, power_op = 37 dBm
    assert!(processed(e.ingest(spot(1, 120_000, "AB1CDE", "FN42", -5, 14_097_100, "K9XYZ", "EN50", 30, 0, 1500))).is_empty());
    assert!(processed(e.ingest(spot(2, 120_060, "K9XYZ", "EN50", -10, 14_097_050, "AB1CDE", "FN42", 37, 0, 1500))).is_empty());
    // pair two for the same key: snr_op = -3, snr_ct = -8, power_op = 30 dBm
    assert!(processed(e.ingest(spot(3, 120_120, "AB1CDE", "FN42", -8, 14_097_100, "K9XYZ", "EN50", 30, 0, 1500))).is_empty());
    assert!(processed(e.ingest(spot(4, 120_180, "K9XYZ", "EN50", -3, 14_097_050, "AB1CDE", "FN42", 30, 0, 1500))).is_empty());
    assert_eq!(e.qsos.len(), 1);
    let q = &e.qsos[0].1;
    assert_eq!(q.snr_op, -3);
    assert_eq!(q.snr_ct, -5);
    assert_eq!(q.power_op.dbm, 30);
    assert_eq!(q.spots, vec![1, 2, 3, 4]);
    assert_eq!(q.time_first, 120_000);
    assert_eq!(q.time_last, 120_180);
}

#[test]
fn excluded_counterpart_never_produces_an_aggregate() {
    let mut e = Engine::new(b"AB1CDE".to_vec(), vec![b"K9XYZ".to_vec()]);
    assert!(matches!(e.ingest(spot_rx(1, 120_000, -5)), IngestOutcome::Excluded));
    assert!(matches!(e.ingest(spot_tx(2, 120_060, -10)), IngestOutcome::Excluded));
    assert_eq!(e.qsos.len(), 0);
    assert_eq!(e.rx.len(), 0);
    assert_eq!(e.tx.len(), 0);
    // nothing is ever emitted for the pair
    let later = spot(9, 120_360, "AB1CDE", "FN42", -9, 7_040_000, "W1AAA", "JN39", 23, 0, 600);
    assert!(processed(e.ingest(later)).is_empty());
}

#[test]
fn exclusion_list_matches_bytes_exactly() {
    let mut e = Engine::new(b"AB1CDE".to_vec(), vec![b"K9XYZ".to_vec()]);
    // a differently-cased counterpart is not on the list
    let a = spot(1, 120_000, "AB1CDE", "FN42", -5, 14_097_100, "k9xyz", "EN50", 30, 0, 100);
    assert!(matches!(e.ingest(a), IngestOutcome::Processed { .. }));
    assert_eq!(e.rx.len(), 1);
}

#[test]
fn report_not_naming_self_is_ignored() {
    let mut e = engine();
    let other = spot(1, 120_000, "W1AAA", "JN39", -5, 14_097_100, "K9XYZ", "EN50", 30, 0, 100);
    assert!(matches!(e.ingest(other), IngestOutcome::NotSelf));
    assert_eq!(e.rx.len(), 0);
    assert_eq!(e.tx.len(), 0);
    assert_eq!(e.cycle, 0);
}

#[test]
fn unknown_band_is_skipped_but_advances_the_cycle() {
    let mut e = engine();
    // 1 MHz lies between the named bands
    let odd = spot(1, 120_000, "AB1CDE", "FN42", -5, 1_000_000, "K9XYZ", "EN50", 30, 0, 100);
    assert!(matches!(e.ingest(odd), IngestOutcome::UnknownBand));
    assert_eq!(e.rx.len(), 0);
    assert_eq!(e.cycle, 1000);
}

#[test]
fn band_pairings_form_independent_aggregates() {
    let mut e = engine();
    assert!(processed(e.ingest(spot_rx(1, 120_000, -5))).is_empty());
    assert!(processed(e.ingest(spot_tx(2, 120_060, -10))).is_empty());
    // the same pair heard again on 40 m: matching ignores the band, so
    // every reciprocal band pairing gets its own aggregate
    let a40 = spot(3, 120_060, "AB1CDE", "FN42", -5, 7_040_000, "K9XYZ", "EN50", 30, 0, 1500);
    let b40 = spot(4, 120_060, "K9XYZ", "EN50", -10, 7_040_100, "AB1CDE", "FN42", 37, 0, 1500);
    assert!(processed(e.ingest(a40)).is_empty());
    assert!(processed(e.ingest(b40)).is_empty());
    assert_eq!(e.qsos.len(), 4);
}
