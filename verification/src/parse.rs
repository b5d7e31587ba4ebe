//! Row parser: one comma-separated text line to a typed [`Spot`], or a
//! failure naming the first missing or malformed field.
//!
//! Field order: id, timestamp, reporter call, reporter grid, SNR,
//! frequency as decimal MHz, transmitter call, transmitter grid, power in
//! dBm, drift, distance.  Numeric fields take an optional leading sign and
//! decimal digits; the frequency takes an optional `+`, digits and at most
//! one point, and is converted to exact integer Hz by scaling to six
//! fractional digits and rounding the rest to nearest, half away from
//! zero.  Parsing is pure: a failure never disturbs the stream.

use vstd::prelude::*;
use crate::power::{pow10, Power};
use crate::spot::{Spot, SpotV};

verus! {

/// A field of an input row, in row order.
#[derive(Clone, Copy, Debug, PartialEq, Eq, Structural)]
pub enum FieldName {
    Id,
    Timestamp,
    ReporterCall,
    ReporterGrid,
    Snr,
    Frequency,
    TransmitterCall,
    TransmitterGrid,
    Power,
    Drift,
    Distance,
}

/// Why a row was rejected: a field was absent, or present but not of its
/// expected form.
#[derive(Clone, Copy, Debug, PartialEq, Eq, Structural)]
pub enum ParseError {
    Missing(FieldName),
    Malformed(FieldName),
}

/// Index of the first `b` in `s`, or `s.len()` if there is none.
pub open spec fn first_byte(s: Seq<u8>, b: u8) -> int
    decreases s.len(),
{
    if s.len() == 0 {
        0
    } else if s[0] == b {
        0
    } else {
        1 + first_byte(s.skip(1), b)
    }
}

/// The comma-separated fields of a line.  Every line has at least one
/// field; an empty line has exactly one, the empty field.
pub open spec fn split_fields(s: Seq<u8>) -> Seq<Seq<u8>>
    decreases s.len(),
{
    let j = first_byte(s, 44);
    if 0 <= j < s.len() {
        seq![s.take(j)] + split_fields(s.skip(j + 1))
    } else {
        seq![s]
    }
}

/// Every byte is a decimal digit.
pub open spec fn all_digits(s: Seq<u8>) -> bool {
    forall|i: int| 0 <= i < s.len() ==> 48 <= #[trigger] s[i] <= 57
}

/// The number the digit string denotes (0 for the empty string).
pub open spec fn digits_val(s: Seq<u8>) -> int
    decreases s.len(),
{
    if s.len() == 0 {
        0
    } else {
        digits_val(s.drop_last()) * 10 + (s.last() - 48)
    }
}

/// The field with one leading `+` removed, if it has one.
pub open spec fn strip_plus(s: Seq<u8>) -> Seq<u8> {
    if s.len() > 0 && s[0] == 43 {
        s.skip(1)
    } else {
        s
    }
}

/// An unsigned decimal field: optional `+`, then digits, in range.
pub open spec fn spec_parse_u64(f: Seq<u8>) -> Option<u64> {
    let rest = strip_plus(f);
    if rest.len() >= 1 && all_digits(rest) && digits_val(rest) <= u64::MAX {
        Some(digits_val(rest) as u64)
    } else {
        None
    }
}

/// A signed decimal field: optional `+` or `-`, then digits, in `i8`
/// range.
pub open spec fn spec_parse_i8(f: Seq<u8>) -> Option<i8> {
    let neg = f.len() > 0 && f[0] == 45;
    let rest = if neg || (f.len() > 0 && f[0] == 43) {
        f.skip(1)
    } else {
        f
    };
    if rest.len() >= 1 && all_digits(rest) {
        if neg && digits_val(rest) <= 128 {
            Some((-(digits_val(rest) as int)) as i8)
        } else if !neg && digits_val(rest) <= 127 {
            Some(digits_val(rest) as i8)
        } else {
            None
        }
    } else {
        None
    }
}

/// An unsigned decimal field in `u16` range.
pub open spec fn spec_parse_u16(f: Seq<u8>) -> Option<u16> {
    let rest = strip_plus(f);
    if rest.len() >= 1 && all_digits(rest) && digits_val(rest) <= u16::MAX {
        Some(digits_val(rest) as u16)
    } else {
        None
    }
}

/// The fractional digits of a MHz field scaled to six places, rounded to
/// nearest at the seventh digit, ties away from zero.
pub open spec fn frac6(f: Seq<u8>) -> int {
    if f.len() >= 6 {
        digits_val(f.take(6)) + if f.len() > 6 && f[6] >= 53 {
            1int
        } else {
            0int
        }
    } else {
        digits_val(f) * pow10((6 - f.len()) as nat)
    }
}

/// A decimal-MHz field converted to exact integer Hz: optional `+`,
/// digits, at most one point, at least one digit in all, value in range.
pub open spec fn spec_parse_mhz(f: Seq<u8>) -> Option<u64> {
    let rest = strip_plus(f);
    let d = first_byte(rest, 46);
    let ip = rest.take(d);
    let fp = if d == rest.len() {
        Seq::<u8>::empty()
    } else {
        rest.skip(d + 1)
    };
    if all_digits(ip) && all_digits(fp) && ip.len() + fp.len() >= 1
        && digits_val(ip) * 1_000_000 + frac6(fp) <= u64::MAX {
        Some((digits_val(ip) * 1_000_000 + frac6(fp)) as u64)
    } else {
        None
    }
}

/// What a whole line parses to: the typed report, or the first failure in
/// field order.
pub open spec fn spec_parse(line: Seq<u8>) -> Result<SpotV, ParseError> {
    let fs = split_fields(line);
    if spec_parse_u64(fs[0]) is None {
        Err(ParseError::Malformed(FieldName::Id))
    } else if fs.len() < 2 {
        Err(ParseError::Missing(FieldName::Timestamp))
    } else if spec_parse_u64(fs[1]) is None {
        Err(ParseError::Malformed(FieldName::Timestamp))
    } else if fs.len() < 3 {
        Err(ParseError::Missing(FieldName::ReporterCall))
    } else if fs.len() < 4 {
        Err(ParseError::Missing(FieldName::ReporterGrid))
    } else if fs.len() < 5 {
        Err(ParseError::Missing(FieldName::Snr))
    } else if spec_parse_i8(fs[4]) is None {
        Err(ParseError::Malformed(FieldName::Snr))
    } else if fs.len() < 6 {
        Err(ParseError::Missing(FieldName::Frequency))
    } else if spec_parse_mhz(fs[5]) is None {
        Err(ParseError::Malformed(FieldName::Frequency))
    } else if fs.len() < 7 {
        Err(ParseError::Missing(FieldName::TransmitterCall))
    } else if fs.len() < 8 {
        Err(ParseError::Missing(FieldName::TransmitterGrid))
    } else if fs.len() < 9 {
        Err(ParseError::Missing(FieldName::Power))
    } else if spec_parse_i8(fs[8]) is None {
        Err(ParseError::Malformed(FieldName::Power))
    } else if fs.len() < 10 {
        Err(ParseError::Missing(FieldName::Drift))
    } else if spec_parse_i8(fs[9]) is None {
        Err(ParseError::Malformed(FieldName::Drift))
    } else if fs.len() < 11 {
        Err(ParseError::Missing(FieldName::Distance))
    } else if spec_parse_u16(fs[10]) is None {
        Err(ParseError::Malformed(FieldName::Distance))
    } else {
        Ok(SpotV {
            id: spec_parse_u64(fs[0]).unwrap(),
            timestamp: spec_parse_u64(fs[1]).unwrap(),
            call_rx: fs[2],
            grid_rx: fs[3],
            snr: spec_parse_i8(fs[4]).unwrap(),
            frequency: spec_parse_mhz(fs[5]).unwrap(),
            call_tx: fs[6],
            grid_tx: fs[7],
            power: spec_parse_i8(fs[8]).unwrap(),
            drift: spec_parse_i8(fs[9]).unwrap(),
            distance: spec_parse_u16(fs[10]).unwrap(),
        })
    }
}

/// A scan that passes no `b` up to `j` and stops at `b` or the end finds
/// exactly `first_byte`.
proof fn lemma_first_byte_is(s: Seq<u8>, b: u8, j: int)
    requires
        0 <= j <= s.len(),
        forall|i: int| 0 <= i < j ==> s[i] != b,
        j < s.len() ==> s[j] == b,
    ensures
        first_byte(s, b) == j,
    decreases s.len(),
{
    if s.len() > 0 && s[0] != b {
        lemma_first_byte_is(s.skip(1), b, j - 1);
    }
}

/// Splitting always yields at least one field.
proof fn lemma_split_fields_len(s: Seq<u8>)
    ensures
        split_fields(s).len() >= 1,
{
}

/// The field views collected so far.
spec fn views_of(fields: Seq<&[u8]>) -> Seq<Seq<u8>> {
    fields.map_values(|f: &[u8]| f@)
}

/// Splits a line at its commas.
fn split_line<'a>(line: &'a [u8]) -> (fields: Vec<&'a [u8]>)
    ensures
        views_of(fields@) == split_fields(line@),
{
    let mut fields: Vec<&'a [u8]> = Vec::new();
    let mut start: usize = 0;
    proof {
        assert(line@.skip(0) =~= line@);
    }
    loop
        invariant
            start <= line.len(),
            split_fields(line@) =~= views_of(fields@) + split_fields(line@.skip(start as int)),
        decreases line.len() - start,
    {
        let ghost rem = line@.skip(start as int);
        let mut j: usize = start;
        while j < line.len() && line[j] != 44
            invariant
                start <= j <= line.len(),
                forall|i: int| start <= i < j ==> line@[i] != 44,
            decreases line.len() - j,
        {
            j += 1;
        }
        proof {
            assert(forall|i: int| 0 <= i < j - start ==> #[trigger] rem[i] != 44);
            lemma_first_byte_is(rem, 44, j - start);
        }
        let field: &'a [u8] = &line[start..j];
        fields.push(field);
        if j < line.len() {
            proof {
                assert(split_fields(rem) == seq![rem.take(j - start)]
                    + split_fields(rem.skip(j - start + 1)));
                assert(rem.take(j - start) =~= field@);
                assert(rem.skip(j - start + 1) =~= line@.skip(j + 1));
                assert(views_of(fields@) =~= views_of(fields@.drop_last()) + seq![field@]);
            }
            start = j + 1;
        } else {
            proof {
                assert(split_fields(rem) == seq![rem]);
                assert(rem =~= field@);
                assert(views_of(fields@) =~= views_of(fields@.drop_last()) + seq![field@]);
                assert(views_of(fields@) =~= split_fields(line@));
            }
            return fields;
        }
    }
}

/// A digit string denotes a non-negative number.
proof fn lemma_digits_val_nonneg(s: Seq<u8>)
    requires
        all_digits(s),
    ensures
        digits_val(s) >= 0,
    decreases s.len(),
{
    if s.len() > 0 {
        assert(all_digits(s.drop_last()));
        lemma_digits_val_nonneg(s.drop_last());
    }
}

/// A longer digit string denotes at least as large a number.
proof fn lemma_digits_val_prefix(s: Seq<u8>, i: int)
    requires
        0 <= i <= s.len(),
        all_digits(s),
    ensures
        digits_val(s) >= digits_val(s.take(i)),
    decreases s.len(),
{
    if i < s.len() {
        assert(all_digits(s.drop_last()));
        assert(s.drop_last().take(i) =~= s.take(i));
        lemma_digits_val_prefix(s.drop_last(), i);
        lemma_digits_val_nonneg(s.drop_last());
    } else {
        assert(s.take(i) =~= s);
    }
}

/// A fraction of digits scales to a non-negative value.
proof fn lemma_frac6_nonneg(f: Seq<u8>)
    requires
        all_digits(f),
    ensures
        frac6(f) >= 0,
{
    if f.len() >= 6 {
        assert(all_digits(f.take(6)));
        lemma_digits_val_nonneg(f.take(6));
    } else {
        lemma_digits_val_nonneg(f);
        assert(digits_val(f) * pow10((6 - f.len()) as nat) >= 0) by (nonlinear_arith)
            requires
                digits_val(f) >= 0,
        ;
    }
}

/// Reads an all-digit byte string as a number; `None` when a byte is not
/// a digit or the number does not fit.  The empty string reads as zero.
fn parse_digits(f: &[u8]) -> (r: Option<u64>)
    ensures
        match r {
            Some(v) => all_digits(f@) && digits_val(f@) == v,
            None => !(all_digits(f@) && digits_val(f@) <= u64::MAX),
        },
{
    let mut v: u64 = 0;
    let mut i: usize = 0;
    while i < f.len()
        invariant
            i <= f.len(),
            all_digits(f@.take(i as int)),
            v == digits_val(f@.take(i as int)),
        decreases f.len() - i,
    {
        let b = f[i];
        if b < 48 || b > 57 {
            assert(!all_digits(f@));
            return None;
        }
        let d = (b - 48) as u64;
        if v > (u64::MAX - d) / 10 {
            proof {
                assert(v * 10 + d > u64::MAX) by (nonlinear_arith)
                    requires
                        v > (u64::MAX - d) / 10,
                        d <= 9,
                ;
                assert(f@.take(i + 1).drop_last() =~= f@.take(i as int));
                assert(f@.take(i + 1).last() == f@[i as int]);
                assert(digits_val(f@.take(i + 1)) == v * 10 + d);
                if all_digits(f@) {
                    lemma_digits_val_prefix(f@, i + 1);
                }
            }
            return None;
        }
        proof {
            assert(v * 10 + d <= u64::MAX) by (nonlinear_arith)
                requires
                    v <= (u64::MAX - d) / 10,
                    d <= 9,
            ;
            assert(f@.take(i + 1).drop_last() =~= f@.take(i as int));
        }
        v = v * 10 + d;
        i += 1;
    }
    assert(f@.take(f@.len() as int) =~= f@);
    Some(v)
}

/// Parses an unsigned decimal field.
fn parse_u64_field(f: &[u8]) -> (r: Option<u64>)
    ensures
        r == spec_parse_u64(f@),
{
    let rest: &[u8] = if f.len() > 0 && f[0] == 43 {
        &f[1..f.len()]
    } else {
        f
    };
    assert(rest@ == strip_plus(f@));
    if rest.len() == 0 {
        return None;
    }
    parse_digits(rest)
}

/// Parses a signed decimal field into `i8` range.
fn parse_i8_field(f: &[u8]) -> (r: Option<i8>)
    ensures
        r == spec_parse_i8(f@),
{
    let neg = f.len() > 0 && f[0] == 45;
    let rest: &[u8] = if f.len() > 0 && (f[0] == 43 || f[0] == 45) {
        &f[1..f.len()]
    } else {
        f
    };
    if rest.len() == 0 {
        return None;
    }
    let v = match parse_digits(rest) {
        Some(v) => v,
        None => {
            return None;
        },
    };
    if neg {
        if v <= 128 {
            Some((-(v as i64)) as i8)
        } else {
            None
        }
    } else {
        if v <= 127 {
            Some(v as i8)
        } else {
            None
        }
    }
}

/// Parses an unsigned decimal field into `u16` range.
fn parse_u16_field(f: &[u8]) -> (r: Option<u16>)
    ensures
        r == spec_parse_u16(f@),
{
    let rest: &[u8] = if f.len() > 0 && f[0] == 43 {
        &f[1..f.len()]
    } else {
        f
    };
    assert(rest@ == strip_plus(f@));
    if rest.len() == 0 {
        return None;
    }
    match parse_digits(rest) {
        Some(v) => {
            if v <= 65535 {
                Some(v as u16)
            } else {
                None
            }
        },
        None => None,
    }
}

/// Parses a decimal-MHz field to exact integer Hz.
fn parse_mhz_field(f: &[u8]) -> (r: Option<u64>)
    ensures
        r == spec_parse_mhz(f@),
{
    let rest: &[u8] = if f.len() > 0 && f[0] == 43 {
        &f[1..f.len()]
    } else {
        f
    };
    assert(rest@ == strip_plus(f@));
    let mut d: usize = 0;
    while d < rest.len() && rest[d] != 46
        invariant
            d <= rest.len(),
            forall|i: int| 0 <= i < d ==> rest@[i] != 46,
        decreases rest.len() - d,
    {
        d += 1;
    }
    proof {
        lemma_first_byte_is(rest@, 46, d as int);
    }
    let ip: &[u8] = &rest[0..d];
    assert(ip@ == rest@.take(d as int));
    let fp: &[u8] = if d < rest.len() {
        &rest[d + 1..rest.len()]
    } else {
        &rest[rest.len()..rest.len()]
    };
    proof {
        if d < rest.len() {
            assert(fp@ =~= rest@.skip(d + 1));
        } else {
            assert(fp@ =~= Seq::<u8>::empty());
        }
    }
    if ip.len() == 0 && fp.len() == 0 {
        return None;
    }
    let iv = match parse_digits(ip) {
        Some(v) => v,
        None => {
            proof {
                // either a bad digit, or the integer part alone is out of range
                if all_digits(ip@) && all_digits(fp@) {
                    lemma_frac6_nonneg(fp@);
                    assert(digits_val(ip@) * 1_000_000 + frac6(fp@) > u64::MAX)
                        by (nonlinear_arith)
                        requires
                            digits_val(ip@) > u64::MAX,
                            frac6(fp@) >= 0,
                    ;
                }
            }
            return None;
        },
    };
    let fv = match parse_frac6(fp) {
        Some(v) => v,
        None => {
            return None;
        },
    };
    assert(fv <= 1_000_000);
    if iv > (u64::MAX - fv) / 1_000_000 {
        proof {
            assert(iv * 1_000_000 + fv > u64::MAX) by (nonlinear_arith)
                requires
                    iv > (u64::MAX - fv) / 1_000_000,
                    fv <= 1_000_000,
            ;
        }
        return None;
    }
    proof {
        assert(iv * 1_000_000 + fv <= u64::MAX) by (nonlinear_arith)
            requires
                iv <= (u64::MAX - fv) / 1_000_000,
                fv <= 1_000_000,
        ;
    }
    Some(iv * 1_000_000 + fv)
}

/// Reads fractional-MHz digits scaled to six places, rounding at the
/// seventh digit.
fn parse_frac6(fp: &[u8]) -> (r: Option<u64>)
    ensures
        match r {
            Some(v) => all_digits(fp@) && frac6(fp@) == v && v <= 1_000_000,
            None => !all_digits(fp@),
        },
{
    // every byte must be a digit, even those beyond the rounding point
    let mut i: usize = 0;
    while i < fp.len()
        invariant
            i <= fp.len(),
            forall|k: int| 0 <= k < i ==> 48 <= #[trigger] fp@[k] <= 57,
        decreases fp.len() - i,
    {
        let b = fp[i];
        if b < 48 || b > 57 {
            assert(!all_digits(fp@));
            return None;
        }
        i += 1;
    }
    assert(all_digits(fp@));
    if fp.len() >= 6 {
        let head: &[u8] = &fp[0..6];
        assert(head@ == fp@.take(6));
        assert(all_digits(head@));
        proof {
            lemma_digits_bound(head@);
            assert(pow10(6) == 1_000_000) by {
                reveal_with_fuel(pow10, 7);
            }
        }
        let v = match parse_digits(head) {
            Some(v) => v,
            None => {
                assert(false);
                return None;
            },
        };
        if fp.len() > 6 && fp[6] >= 53 {
            Some(v + 1)
        } else {
            Some(v)
        }
    } else {
        proof {
            lemma_digits_bound(fp@);
            crate::power::lemma_pow10_adds(fp@.len() as nat, (6 - fp@.len()) as nat);
            crate::power::lemma_pow10_mono(fp@.len() as nat, 6);
            assert(pow10(6) == 1_000_000) by {
                reveal_with_fuel(pow10, 7);
            }
        }
        let v = match parse_digits(fp) {
            Some(v) => v,
            None => {
                assert(false);
                return None;
            },
        };
        proof {
            assert(v * pow10((6 - fp@.len()) as nat) <= 1_000_000) by (nonlinear_arith)
                requires
                    v < pow10(fp@.len() as nat),
                    pow10(fp@.len() as nat) * pow10((6 - fp@.len()) as nat) == 1_000_000,
            ;
        }
        let scale = pow10_small(6 - fp.len());
        Some(v * scale)
    }
}

/// A digit string of length `n` denotes less than `10^n`.
proof fn lemma_digits_bound(s: Seq<u8>)
    requires
        all_digits(s),
    ensures
        digits_val(s) < pow10(s.len()),
    decreases s.len(),
{
    if s.len() > 0 {
        lemma_digits_bound(s.drop_last());
    }
}

/// `10^p` for the handful of small exponents the fraction scaler needs.
fn pow10_small(p: usize) -> (r: u64)
    requires
        p <= 6,
    ensures
        r == pow10(p as nat),
{
    proof {
        reveal_with_fuel(pow10, 8);
    }
    if p == 0 {
        1
    } else if p == 1 {
        10
    } else if p == 2 {
        100
    } else if p == 3 {
        1_000
    } else if p == 4 {
        10_000
    } else if p == 5 {
        100_000
    } else {
        1_000_000
    }
}

/// Parses one input row into a typed report, or the first failure.
pub fn parse_spot(line: &[u8]) -> (r: Result<Spot, ParseError>)
    ensures
        match r {
            Ok(s) => spec_parse(line@) == Ok::<SpotV, ParseError>(s@),
            Err(e) => spec_parse(line@) == Err::<SpotV, ParseError>(e),
        },
{
    let fields = split_line(line);
    let ghost fs = split_fields(line@);
    proof {
        lemma_split_fields_len(line@);
    }
    let id = match parse_u64_field(fields[0]) {
        Some(v) => v,
        None => {
            return Err(ParseError::Malformed(FieldName::Id));
        },
    };
    if fields.len() < 2 {
        return Err(ParseError::Missing(FieldName::Timestamp));
    }
    let timestamp = match parse_u64_field(fields[1]) {
        Some(v) => v,
        None => {
            return Err(ParseError::Malformed(FieldName::Timestamp));
        },
    };
    if fields.len() < 3 {
        return Err(ParseError::Missing(FieldName::ReporterCall));
    }
    let call_rx = crate::text::copy_slice(fields[2]);
    if fields.len() < 4 {
        return Err(ParseError::Missing(FieldName::ReporterGrid));
    }
    let grid_rx = crate::text::copy_slice(fields[3]);
    if fields.len() < 5 {
        return Err(ParseError::Missing(FieldName::Snr));
    }
    let snr = match parse_i8_field(fields[4]) {
        Some(v) => v,
        None => {
            return Err(ParseError::Malformed(FieldName::Snr));
        },
    };
    if fields.len() < 6 {
        return Err(ParseError::Missing(FieldName::Frequency));
    }
    let frequency = match parse_mhz_field(fields[5]) {
        Some(v) => v,
        None => {
            return Err(ParseError::Malformed(FieldName::Frequency));
        },
    };
    if fields.len() < 7 {
        return Err(ParseError::Missing(FieldName::TransmitterCall));
    }
    let call_tx = crate::text::copy_slice(fields[6]);
    if fields.len() < 8 {
        return Err(ParseError::Missing(FieldName::TransmitterGrid));
    }
    let grid_tx = crate::text::copy_slice(fields[7]);
    if fields.len() < 9 {
        return Err(ParseError::Missing(FieldName::Power));
    }
    let power = match parse_i8_field(fields[8]) {
        Some(v) => v,
        None => {
            return Err(ParseError::Malformed(FieldName::Power));
        },
    };
    if fields.len() < 10 {
        return Err(ParseError::Missing(FieldName::Drift));
    }
    let drift = match parse_i8_field(fields[9]) {
        Some(v) => v,
        None => {
            return Err(ParseError::Malformed(FieldName::Drift));
        },
    };
    if fields.len() < 11 {
        return Err(ParseError::Missing(FieldName::Distance));
    }
    let distance = match parse_u16_field(fields[10]) {
        Some(v) => v,
        None => {
            return Err(ParseError::Malformed(FieldName::Distance));
        },
    };
    let spot = Spot {
        id,
        timestamp,
        call_rx,
        grid_rx,
        snr,
        frequency,
        call_tx,
        grid_tx,
        power: Power::from_dbm(power),
        drift,
        distance,
    };
    assert(spec_parse(line@) == Ok::<SpotV, ParseError>(spot@));
    Ok(spot)
}

impl ParseError {
    /// A short diagnostic naming the failing field.
    pub fn message(&self) -> &'static str {
        match self {
            ParseError::Missing(FieldName::Id) => "Missing ID field",
            ParseError::Missing(FieldName::Timestamp) => "Missing timestamp field",
            ParseError::Missing(FieldName::ReporterCall) => "Missing reporter call sign field",
            ParseError::Missing(FieldName::ReporterGrid) => "Missing reporter grid field",
            ParseError::Missing(FieldName::Snr) => "Missing SNR field",
            ParseError::Missing(FieldName::Frequency) => "Missing frequency field",
            ParseError::Missing(FieldName::TransmitterCall) => "Missing transmitter call sign field",
            ParseError::Missing(FieldName::TransmitterGrid) => "Missing transmitter grid field",
            ParseError::Missing(FieldName::Power) => "Missing transmission power field",
            ParseError::Missing(FieldName::Drift) => "Missing frequency drift field",
            ParseError::Missing(FieldName::Distance) => "Missing distance field",
            ParseError::Malformed(FieldName::Id) => "Malformed ID field",
            ParseError::Malformed(FieldName::Timestamp) => "Malformed timestamp field",
            ParseError::Malformed(FieldName::ReporterCall) => "Malformed reporter call sign field",
            ParseError::Malformed(FieldName::ReporterGrid) => "Malformed reporter grid field",
            ParseError::Malformed(FieldName::Snr) => "Malformed SNR field",
            ParseError::Malformed(FieldName::Frequency) => "Malformed frequency field",
            ParseError::Malformed(FieldName::TransmitterCall) => "Malformed transmitter call sign field",
            ParseError::Malformed(FieldName::TransmitterGrid) => "Malformed transmitter grid field",
            ParseError::Malformed(FieldName::Power) => "Malformed transmission power field",
            ParseError::Malformed(FieldName::Drift) => "Malformed frequency drift field",
            ParseError::Malformed(FieldName::Distance) => "Malformed distance field",
        }
    }
}

} // verus!
