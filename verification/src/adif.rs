//! Record emitter: serializes a finalized contact, and the run preamble,
//! as tag/length/value (ADIF) log records.
//!
//! Each field is written as `<NAME:len>value`, where `len` counts the
//! bytes of the value exactly; a record ends with `<EOR>`.  All numbers
//! are rendered in exact integer arithmetic; only the calendar date of a
//! timestamp comes from an outside library, behind one trusted wrapper.

use vstd::prelude::*;
use vstd::string::StringSliceAdditionalSpecFns;
use crate::band::{classify, spec_classify, spec_hz_text, spec_tag, spec_text, Band};
use crate::power::{spec_power_text, spec_watts4, Power};
use crate::qso::{Qso, QsoV};
use crate::text::{dec_digits, fixed_digits, push_bytes, push_dec_u64, push_fixed};

verus! {

/// The last Unix second of year 9999: dates beyond it would not render
/// as eight digits.
pub const MAX_DATE_TS: u64 = 253402300799;

/// The eight digits (four-digit zero-padded year, two-digit month, two-
/// digit day) of the UTC calendar date of a Unix timestamp.
pub uninterp spec fn utc_date_digits(ts: u64) -> Seq<u8>;

/// Relies on chrono's `DateTime::<Utc>::from_timestamp` and its `%Y%m%d`
/// formatting: the UTC calendar date of a Unix timestamp, eight digits,
/// a function of the timestamp alone.  In-range timestamps (through year
/// 9999) always convert.
#[verifier::external_body]
fn format_utc_date(ts: u64) -> (r: Vec<u8>)
    requires
        ts <= MAX_DATE_TS,
    ensures
        r@ == utc_date_digits(ts),
        r@.len() == 8,
{
    let dt = chrono::DateTime::<chrono::Utc>::from_timestamp(ts as i64, 0).unwrap();
    format!("{}", dt.format("%Y%m%d")).into_bytes()
}

/// The four digits `HHMM` of the UTC time of day of a Unix timestamp.
pub open spec fn hhmm_digits(ts: u64) -> Seq<u8> {
    fixed_digits((ts % 86400 / 3600) as nat, 2) + fixed_digits((ts % 3600 / 60) as nat, 2)
}

/// One tag/length/value field: `<NAME:len>value`, `len` the byte count of
/// the value.
pub open spec fn field(name: Seq<u8>, value: Seq<u8>) -> Seq<u8> {
    "<".spec_bytes() + name + ":".spec_bytes() + dec_digits(value.len()) + ">".spec_bytes() + value
}

/// Plain decimal text of a signed value: a minus sign only when negative.
pub open spec fn int_text(v: int) -> Seq<u8> {
    if v < 0 {
        "-".spec_bytes() + dec_digits((-v) as nat)
    } else {
        dec_digits(v as nat)
    }
}

/// Decimal text of a signed value with its sign always written.
pub open spec fn signed_text(v: int) -> Seq<u8> {
    if v < 0 {
        "-".spec_bytes() + dec_digits((-v) as nat)
    } else {
        "+".spec_bytes() + dec_digits(v as nat)
    }
}

/// A signal report: sign-prefixed, zero-padded to two digits.
pub open spec fn snr_text(v: int) -> Seq<u8> {
    let a = if v < 0 {
        (-v) as nat
    } else {
        v as nat
    };
    (if v < 0 {
        "-".spec_bytes()
    } else {
        "+".spec_bytes()
    }) + (if a < 10 {
        "0".spec_bytes()
    } else {
        Seq::<u8>::empty()
    }) + dec_digits(a)
}

/// A frequency in MHz to six decimal places, from its exact Hz value.
pub open spec fn mhz6_text(hz: u64) -> Seq<u8> {
    dec_digits((hz / 1_000_000) as nat) + ".".spec_bytes() + fixed_digits((hz % 1_000_000) as nat, 6)
}

/// The band text of a frequency for commentary: the named band, or the
/// raw frequency where no band classifies it.
pub open spec fn band_or_hz_text(hz: u64) -> Seq<u8> {
    match spec_classify(hz) {
        Some(b) => spec_text(b),
        None => spec_hz_text(hz),
    }
}

/// The contributing report ids, ascending, comma-and-space separated.
pub open spec fn ids_text(ids: Seq<u64>) -> Seq<u8>
    decreases ids.len(),
{
    if ids.len() == 0 {
        Seq::empty()
    } else if ids.len() == 1 {
        dec_digits(ids[0] as nat)
    } else {
        ids_text(ids.drop_last()) + ", ".spec_bytes() + dec_digits(ids.last() as nat)
    }
}

/// The free-text summary of a contact: band (both directions where they
/// differ), the contact's power, SNR, drift, and the distance.
pub open spec fn summary_text(q: QsoV) -> Seq<u8> {
    let band_op = band_or_hz_text(q.freq_op);
    let band_ct = band_or_hz_text(q.freq_ct);
    let band_str = if band_op == band_ct {
        band_op
    } else {
        band_op + " (RX ".spec_bytes() + band_ct + ")".spec_bytes()
    };
    "2-way WSPR spot on ".spec_bytes() + band_str + " with ".spec_bytes() + spec_power_text(
        q.power_ct as int,
    ) + " (".spec_bytes() + int_text(q.power_ct as int) + " dBm), SNR ".spec_bytes() + int_text(
        q.snr_ct as int,
    ) + " dB, drift ".spec_bytes() + signed_text(q.drift_ct as int) + " Hz/s, distance ".spec_bytes()
        + dec_digits(q.distance as nat) + " km".spec_bytes()
}

/// The complete log record of one finalized contact, fields in fixed
/// order; the band tags are omitted silently where no band classifies the
/// direction's frequency.
pub open spec fn spec_record(q: QsoV) -> Seq<u8> {
    field("QSO_DATE".spec_bytes(), utc_date_digits(q.time_first)) + field(
        "TIME_ON".spec_bytes(),
        hhmm_digits(q.time_first),
    ) + field("QSO_DATE_OFF".spec_bytes(), utc_date_digits((q.time_last + 120) as u64)) + field(
        "TIME_OFF".spec_bytes(),
        hhmm_digits((q.time_last + 120) as u64),
    ) + field("OPERATOR".spec_bytes(), q.call_op) + field("CALL".spec_bytes(), q.call_ct) + field(
        "MY_GRIDSQUARE".spec_bytes(),
        q.grid_op,
    ) + field("GRIDSQUARE".spec_bytes(), q.grid_ct) + field(
        "RST_RCVD".spec_bytes(),
        snr_text(q.snr_op as int),
    ) + field("RST_SENT".spec_bytes(), snr_text(q.snr_ct as int)) + field(
        "FREQ".spec_bytes(),
        mhz6_text(q.freq_op),
    ) + field("RX_FREQ".spec_bytes(), mhz6_text(q.freq_ct)) + (match spec_classify(q.freq_op) {
        Some(b) => field("BAND".spec_bytes(), spec_tag(b)),
        None => Seq::<u8>::empty(),
    }) + (match spec_classify(q.freq_ct) {
        Some(b) => field("BAND_RX".spec_bytes(), spec_tag(b)),
        None => Seq::<u8>::empty(),
    }) + field("TX_PWR".spec_bytes(), spec_watts4(q.power_op as int)) + field(
        "RX_PWR".spec_bytes(),
        spec_watts4(q.power_ct as int),
    ) + field("DISTANCE".spec_bytes(), dec_digits(q.distance as nat)) + field(
        "QSLMSG".spec_bytes(),
        summary_text(q),
    ) + field("COMMENT".spec_bytes(), summary_text(q)) + field(
        "NOTES".spec_bytes(),
        "WSPRnet spot IDs ".spec_bytes() + ids_text(q.spots),
    ) + field("MODE".spec_bytes(), "WSPR".spec_bytes()) + field(
        "QSO_RANDOM".spec_bytes(),
        "Y".spec_bytes(),
    ) + "<EOR>".spec_bytes()
}

/// The run preamble: a banner line naming the operator, then the ADIF
/// header fields and `<EOH>`.
pub open spec fn spec_banner(
    call: Seq<u8>,
    created: Seq<u8>,
    name: Seq<u8>,
    version: Seq<u8>,
) -> Seq<u8> {
    "Mutual WSPR spots for ".spec_bytes() + call + "\n".spec_bytes() + field(
        "ADIF_VER".spec_bytes(),
        "3.1.1".spec_bytes(),
    ) + field("CREATED_TIMESTAMP".spec_bytes(), created) + field("PROGRAMID".spec_bytes(), name)
        + field("PROGRAMVERSION".spec_bytes(), version) + "<EOH>".spec_bytes()
}

/// Appends one `<NAME:len>value` field.
fn push_field(out: &mut Vec<u8>, name: &str, value: &Vec<u8>)
    ensures
        final(out)@ == old(out)@ + field(name.spec_bytes(), value@),
{
    push_bytes(out, "<".as_bytes());
    push_bytes(out, name.as_bytes());
    push_bytes(out, ":".as_bytes());
    push_dec_u64(out, value.len() as u64);
    push_bytes(out, ">".as_bytes());
    push_bytes(out, value.as_slice());
    assert(out@ =~= old(out)@ + field(name.spec_bytes(), value@));
}

/// The `HHMM` digits of a timestamp's time of day.
fn hhmm_vec(ts: u64) -> (r: Vec<u8>)
    ensures
        r@ == hhmm_digits(ts),
{
    let mut out: Vec<u8> = Vec::new();
    push_fixed(&mut out, ts % 86400 / 3600, 2);
    push_fixed(&mut out, ts % 3600 / 60, 2);
    assert(out@ =~= hhmm_digits(ts));
    out
}

/// Plain decimal text of an unsigned value.
fn dec_vec(n: u64) -> (r: Vec<u8>)
    ensures
        r@ == dec_digits(n as nat),
{
    let mut out: Vec<u8> = Vec::new();
    push_dec_u64(&mut out, n);
    assert(out@ =~= dec_digits(n as nat));
    out
}

/// Plain decimal text of a signed value.
fn int_text_vec(v: i8) -> (r: Vec<u8>)
    ensures
        r@ == int_text(v as int),
{
    let mut out: Vec<u8> = Vec::new();
    if v < 0 {
        push_bytes(&mut out, "-".as_bytes());
        push_dec_u64(&mut out, -(v as i64) as u64);
    } else {
        push_dec_u64(&mut out, v as u64);
    }
    assert(out@ =~= int_text(v as int));
    out
}

/// Sign-always decimal text of a signed value.
fn signed_text_vec(v: i8) -> (r: Vec<u8>)
    ensures
        r@ == signed_text(v as int),
{
    let mut out: Vec<u8> = Vec::new();
    if v < 0 {
        push_bytes(&mut out, "-".as_bytes());
        push_dec_u64(&mut out, -(v as i64) as u64);
    } else {
        push_bytes(&mut out, "+".as_bytes());
        push_dec_u64(&mut out, v as u64);
    }
    assert(out@ =~= signed_text(v as int));
    out
}

/// A signal report, sign-prefixed and zero-padded to two digits.
fn snr_vec(v: i8) -> (r: Vec<u8>)
    ensures
        r@ == snr_text(v as int),
{
    let mut out: Vec<u8> = Vec::new();
    let a: u64 = if v < 0 {
        -(v as i64) as u64
    } else {
        v as u64
    };
    if v < 0 {
        push_bytes(&mut out, "-".as_bytes());
    } else {
        push_bytes(&mut out, "+".as_bytes());
    }
    if a < 10 {
        push_bytes(&mut out, "0".as_bytes());
    }
    push_dec_u64(&mut out, a);
    assert(out@ =~= snr_text(v as int));
    out
}

/// A frequency in MHz to six decimal places.
fn mhz6_vec(hz: u64) -> (r: Vec<u8>)
    ensures
        r@ == mhz6_text(hz),
{
    let mut out: Vec<u8> = Vec::new();
    push_dec_u64(&mut out, hz / 1_000_000);
    push_bytes(&mut out, ".".as_bytes());
    push_fixed(&mut out, hz % 1_000_000, 6);
    assert(out@ =~= mhz6_text(hz));
    out
}

/// The four-decimal Watts text of a power.
fn watts4_vec(p: Power) -> (r: Vec<u8>)
    ensures
        r@ == spec_watts4(p.dbm as int),
{
    let mut out: Vec<u8> = Vec::new();
    p.push_watts4(&mut out);
    assert(out@ =~= spec_watts4(p.dbm as int));
    out
}

/// The compact band tag of a band.
fn tag_vec(b: Band) -> (r: Vec<u8>)
    ensures
        r@ == spec_tag(b),
{
    let mut out: Vec<u8> = Vec::new();
    b.push_tag(&mut out);
    assert(out@ =~= spec_tag(b));
    out
}

/// The band-or-raw-frequency text of a frequency.
fn band_or_hz_vec(hz: u64) -> (r: Vec<u8>)
    ensures
        r@ == band_or_hz_text(hz),
{
    let mut out: Vec<u8> = Vec::new();
    match classify(hz) {
        Some(b) => {
            b.push_text(&mut out);
        },
        None => {
            crate::band::push_hz_text(&mut out, hz);
        },
    }
    assert(out@ =~= band_or_hz_text(hz));
    out
}

/// The comma-separated id list of a contact's contributing reports.
fn ids_vec(ids: &Vec<u64>) -> (r: Vec<u8>)
    ensures
        r@ == ids_text(ids@),
{
    let mut out: Vec<u8> = Vec::new();
    let mut i: usize = 0;
    proof {
        assert(ids@.subrange(0, 0) =~= Seq::<u64>::empty());
        assert(out@ =~= ids_text(ids@.subrange(0, 0)));
    }
    while i < ids.len()
        invariant
            i <= ids.len(),
            out@ == ids_text(ids@.subrange(0, i as int)),
        decreases ids.len() - i,
    {
        proof {
            assert(ids@.subrange(0, i + 1).drop_last() =~= ids@.subrange(0, i as int));
            assert(ids@.subrange(0, i + 1).last() == ids@[i as int]);
        }
        if i > 0 {
            push_bytes(&mut out, ", ".as_bytes());
        }
        push_dec_u64(&mut out, ids[i]);
        proof {
            assert(out@ =~= ids_text(ids@.subrange(0, i + 1)));
        }
        i += 1;
    }
    proof {
        assert(ids@.subrange(0, ids@.len() as int) =~= ids@);
    }
    out
}

/// The free-text summary of a contact.
fn summary_vec(q: &Qso) -> (r: Vec<u8>)
    ensures
        r@ == summary_text(q@),
{
    let band_op = band_or_hz_vec(q.freq_op);
    let band_ct = band_or_hz_vec(q.freq_ct);
    let mut out: Vec<u8> = Vec::new();
    push_bytes(&mut out, "2-way WSPR spot on ".as_bytes());
    assert(out@ =~= "2-way WSPR spot on ".spec_bytes());
    if crate::text::bytes_eq(band_op.as_slice(), band_ct.as_slice()) {
        push_bytes(&mut out, band_op.as_slice());
    } else {
        push_bytes(&mut out, band_op.as_slice());
        push_bytes(&mut out, " (RX ".as_bytes());
        push_bytes(&mut out, band_ct.as_slice());
        push_bytes(&mut out, ")".as_bytes());
    }
    push_bytes(&mut out, " with ".as_bytes());
    q.power_ct.push_text(&mut out);
    push_bytes(&mut out, " (".as_bytes());
    let dbm = int_text_vec(q.power_ct.dbm);
    push_bytes(&mut out, dbm.as_slice());
    push_bytes(&mut out, " dBm), SNR ".as_bytes());
    let snr = int_text_vec(q.snr_ct);
    push_bytes(&mut out, snr.as_slice());
    push_bytes(&mut out, " dB, drift ".as_bytes());
    let drift = signed_text_vec(q.drift_ct);
    push_bytes(&mut out, drift.as_slice());
    push_bytes(&mut out, " Hz/s, distance ".as_bytes());
    push_dec_u64(&mut out, q.distance as u64);
    push_bytes(&mut out, " km".as_bytes());
    assert(out@ =~= summary_text(q@));
    out
}

/// Serializes one finalized contact as a tag/length/value record.
/// Timestamps must lie within the renderable date range, and the
/// aggregate must carry at least one contributing report id, as every
/// aggregate the engine builds does.
pub fn emit_record(q: &Qso) -> (r: Vec<u8>)
    requires
        q.time_first <= MAX_DATE_TS,
        q.time_last + 120 <= MAX_DATE_TS,
    ensures
        r@ == spec_record(q@),
{
    let mut out: Vec<u8> = Vec::new();
    let date_on = format_utc_date(q.time_first);
    push_field(&mut out, "QSO_DATE", &date_on);
    assert(out@ =~= field("QSO_DATE".spec_bytes(), utc_date_digits(q.time_first)));
    let time_on = hhmm_vec(q.time_first);
    push_field(&mut out, "TIME_ON", &time_on);
    let off = q.time_last + 120;
    let date_off = format_utc_date(off);
    push_field(&mut out, "QSO_DATE_OFF", &date_off);
    let time_off = hhmm_vec(off);
    push_field(&mut out, "TIME_OFF", &time_off);
    push_field(&mut out, "OPERATOR", &q.call_op);
    push_field(&mut out, "CALL", &q.call_ct);
    push_field(&mut out, "MY_GRIDSQUARE", &q.grid_op);
    push_field(&mut out, "GRIDSQUARE", &q.grid_ct);
    let rst_rcvd = snr_vec(q.snr_op);
    push_field(&mut out, "RST_RCVD", &rst_rcvd);
    let rst_sent = snr_vec(q.snr_ct);
    push_field(&mut out, "RST_SENT", &rst_sent);
    let freq = mhz6_vec(q.freq_op);
    push_field(&mut out, "FREQ", &freq);
    let rx_freq = mhz6_vec(q.freq_ct);
    push_field(&mut out, "RX_FREQ", &rx_freq);
    match classify(q.freq_op) {
        Some(b) => {
            let tag = tag_vec(b);
            push_field(&mut out, "BAND", &tag);
        },
        None => {},
    }
    match classify(q.freq_ct) {
        Some(b) => {
            let tag = tag_vec(b);
            push_field(&mut out, "BAND_RX", &tag);
        },
        None => {},
    }
    let tx_pwr = watts4_vec(q.power_op);
    push_field(&mut out, "TX_PWR", &tx_pwr);
    let rx_pwr = watts4_vec(q.power_ct);
    push_field(&mut out, "RX_PWR", &rx_pwr);
    let distance = dec_vec(q.distance as u64);
    push_field(&mut out, "DISTANCE", &distance);
    let summary = summary_vec(q);
    push_field(&mut out, "QSLMSG", &summary);
    push_field(&mut out, "COMMENT", &summary);
    let mut notes: Vec<u8> = Vec::new();
    push_bytes(&mut notes, "WSPRnet spot IDs ".as_bytes());
    assert(notes@ =~= "WSPRnet spot IDs ".spec_bytes());
    let id_list = ids_vec(&q.spots);
    push_bytes(&mut notes, id_list.as_slice());
    push_field(&mut out, "NOTES", &notes);
    let mode = crate::text::copy_slice("WSPR".as_bytes());
    push_field(&mut out, "MODE", &mode);
    let random = crate::text::copy_slice("Y".as_bytes());
    push_field(&mut out, "QSO_RANDOM", &random);
    push_bytes(&mut out, "<EOR>".as_bytes());
    assert(out@ == spec_record(q@));
    out
}

/// Builds the run preamble from the operator call sign, the creation
/// timestamp text, and the program's name and version.
pub fn banner(call: &Vec<u8>, created: &Vec<u8>, name: &Vec<u8>, version: &Vec<u8>) -> (r: Vec<u8>)
    ensures
        r@ == spec_banner(call@, created@, name@, version@),
{
    let mut out: Vec<u8> = Vec::new();
    push_bytes(&mut out, "Mutual WSPR spots for ".as_bytes());
    assert(out@ =~= "Mutual WSPR spots for ".spec_bytes());
    push_bytes(&mut out, call.as_slice());
    push_bytes(&mut out, "\n".as_bytes());
    let ver = crate::text::copy_slice("3.1.1".as_bytes());
    push_field(&mut out, "ADIF_VER", &ver);
    push_field(&mut out, "CREATED_TIMESTAMP", created);
    push_field(&mut out, "PROGRAMID", name);
    push_field(&mut out, "PROGRAMVERSION", version);
    push_bytes(&mut out, "<EOH>".as_bytes());
    assert(out@ == spec_banner(call@, created@, name@, version@));
    out
}

} // verus!
