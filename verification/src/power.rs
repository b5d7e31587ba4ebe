//! Transmit power in dBm, and its exact-decimal renderings in Watts.
//!
//! A power of `d` dBm is `10^(d/10 - 3)` Watts.  Writing `d - 30 = 10k + r`
//! with `0 <= r < 10`, the Watts value is `c_r * 10^k` where `c_r = 10^(r/10)`.
//! The ten constants `c_r`, scaled by `10^15` and rounded to the nearest
//! integer, let every rendering below be computed in exact integer
//! arithmetic: a renderer picks its branch by `k` alone (the value is in
//! `[10^k, 10^(k+1))`) and rounds `c_r` at the needed decimal place.

use vstd::prelude::*;
use vstd::string::StringSliceAdditionalSpecFns;
use crate::text::{dec_digits, fixed_digits};

verus! {

/// `10^p`.
pub open spec fn pow10(p: nat) -> nat
    decreases p,
{
    if p == 0 {
        1
    } else {
        10 * pow10((p - 1) as nat)
    }
}

/// `10^(r/10)`, scaled by `10^15` and rounded to the nearest integer,
/// for `0 <= r < 10`.
pub open spec fn c15(r: nat) -> nat {
    if r == 0 {
        1_000_000_000_000_000
    } else if r == 1 {
        1_258_925_411_794_167
    } else if r == 2 {
        1_584_893_192_461_113
    } else if r == 3 {
        1_995_262_314_968_880
    } else if r == 4 {
        2_511_886_431_509_580
    } else if r == 5 {
        3_162_277_660_168_379
    } else if r == 6 {
        3_981_071_705_534_973
    } else if r == 7 {
        5_011_872_336_272_723
    } else if r == 8 {
        6_309_573_444_801_932
    } else {
        7_943_282_347_242_815
    }
}

/// `c / d` rounded to the nearest integer, ties away from zero.
pub open spec fn round_div(c: nat, d: nat) -> nat {
    (c + d / 2) / d
}

/// The Watts value of `dbm` dBm, scaled by `10^4` and rounded to the
/// nearest integer: the number rendered to four decimal places.
pub open spec fn spec_watts_e4(dbm: int) -> nat {
    let e = dbm - 30;
    let k = e / 10;
    let r = (e % 10) as nat;
    round_div(c15(r), pow10((11 - k) as nat))
}

/// Four-decimal-place text of the Watts value of `dbm` dBm.
pub open spec fn spec_watts4(dbm: int) -> Seq<u8> {
    let n = spec_watts_e4(dbm);
    dec_digits(n / 10_000) + ".".spec_bytes() + fixed_digits(n % 10_000, 4)
}

/// Text of a value scaled by 10, with one decimal place.
pub open spec fn spec_one_dec(n: nat) -> Seq<u8> {
    dec_digits(n / 10) + ".".spec_bytes() + seq![(48 + n % 10) as u8]
}

/// Human-readable Watts text of `dbm` dBm, at a scaled unit (`nW`, `uW`,
/// `mW`, `W` or `kW` as the magnitude asks); one decimal place in the
/// decade just above each unit, a rounded whole number in the two above it.
pub open spec fn spec_power_text(dbm: int) -> Seq<u8> {
    let e = dbm - 30;
    let k = e / 10;
    let r = (e % 10) as nat;
    let c = c15(r);
    if k <= -7 {
        spec_one_dec(round_div(c, pow10((5 - k) as nat))) + " nW".spec_bytes()
    } else if k == -6 {
        spec_one_dec(round_div(c, pow10(14))) + " \u{b5}W".spec_bytes()
    } else if k == -5 {
        dec_digits(round_div(c, pow10(14))) + " \u{b5}W".spec_bytes()
    } else if k == -4 {
        dec_digits(round_div(c, pow10(14)) * 10) + " \u{b5}W".spec_bytes()
    } else if k == -3 {
        spec_one_dec(round_div(c, pow10(14))) + " mW".spec_bytes()
    } else if k == -2 {
        dec_digits(round_div(c, pow10(14))) + " mW".spec_bytes()
    } else if k == -1 {
        dec_digits(round_div(c, pow10(14)) * 10) + " mW".spec_bytes()
    } else if k == 0 {
        spec_one_dec(round_div(c, pow10(14))) + " W".spec_bytes()
    } else if k == 1 {
        dec_digits(round_div(c, pow10(14))) + " W".spec_bytes()
    } else if k == 2 {
        dec_digits(round_div(c, pow10(14)) * 10) + " W".spec_bytes()
    } else {
        spec_one_dec(round_div(c, pow10((17 - k) as nat))) + " kW".spec_bytes()
    }
}

/// Powers of ten multiply by adding exponents.
pub proof fn lemma_pow10_adds(a: nat, b: nat)
    ensures
        pow10(a + b) == pow10(a) * pow10(b),
    decreases a,
{
    if a == 0 {
        assert(pow10(a) == 1);
        assert(pow10(a + b) == pow10(b));
        assert(pow10(a + b) == pow10(a) * pow10(b));
    } else {
        lemma_pow10_adds((a - 1) as nat, b);
        assert((a + b - 1) as nat == (a - 1) as nat + b);
        assert(pow10(a + b) == 10 * pow10((a + b - 1) as nat));
        assert(pow10(a) == 10 * pow10((a - 1) as nat));
        assert(pow10(a + b) == pow10(a) * pow10(b)) by (nonlinear_arith)
            requires
                pow10(a + b) == 10 * pow10(((a - 1) as nat) + b),
                pow10(((a - 1) as nat) + b) == pow10((a - 1) as nat) * pow10(b),
                pow10(a) == 10 * pow10((a - 1) as nat),
        ;
    }
}

/// Powers of ten grow with the exponent.
pub proof fn lemma_pow10_mono(a: nat, b: nat)
    requires
        a <= b,
    ensures
        pow10(a) <= pow10(b),
    decreases b,
{
    if a < b {
        lemma_pow10_mono(a, (b - 1) as nat);
    }
}

/// A numerator below `10^16` rounded against a divisor of `10^17` or more
/// comes to nothing.
proof fn lemma_round_div_vanishes(c: nat, p: nat)
    requires
        c < pow10(16),
        p >= 17,
    ensures
        round_div(c, pow10(p)) == 0,
{
    lemma_pow10_mono(17, p);
    assert(pow10(17) == 100_000_000_000_000_000) by {
        reveal_with_fuel(pow10, 18);
    }
    assert(pow10(16) == 10_000_000_000_000_000) by {
        reveal_with_fuel(pow10, 17);
    }
    let d = pow10(p);
    assert(c + d / 2 < d);
    vstd::arithmetic::div_mod::lemma_basic_div((c + d / 2) as int, d as int);
}

/// The whole-number renderings round `c_r` at its second digit, so they
/// stay below 80.
proof fn lemma_round14_bound(r: nat)
    requires
        r < 10,
    ensures
        round_div(c15(r), pow10(14)) <= 80,
{
    assert(pow10(14) == 100_000_000_000_000) by {
        reveal_with_fuel(pow10, 15);
    }
}

/// Transmit power, stored as its reported dBm value.
#[derive(Clone, Copy, Debug, PartialEq, Eq, Structural)]
pub struct Power {
    pub dbm: i8,
}

/// `10^p` as a machine integer, for exponents that fit.
fn pow10_u64(p: u64) -> (r: u64)
    requires
        p <= 16,
    ensures
        r == pow10(p as nat),
{
    proof {
        reveal_with_fuel(pow10, 17);
    }
    if p == 0 {
        1
    } else if p == 1 {
        10
    } else if p == 2 {
        100
    } else if p == 3 {
        1_000
    } else if p == 4 {
        10_000
    } else if p == 5 {
        100_000
    } else if p == 6 {
        1_000_000
    } else if p == 7 {
        10_000_000
    } else if p == 8 {
        100_000_000
    } else if p == 9 {
        1_000_000_000
    } else if p == 10 {
        10_000_000_000
    } else if p == 11 {
        100_000_000_000
    } else if p == 12 {
        1_000_000_000_000
    } else if p == 13 {
        10_000_000_000_000
    } else if p == 14 {
        100_000_000_000_000
    } else if p == 15 {
        1_000_000_000_000_000
    } else {
        10_000_000_000_000_000
    }
}

/// `c_r` scaled by `10^15`, as a machine integer.
fn c15_u64(r: u64) -> (c: u64)
    requires
        r < 10,
    ensures
        c == c15(r as nat),
        c < pow10(16),
{
    proof {
        reveal_with_fuel(pow10, 17);
    }
    if r == 0 {
        1_000_000_000_000_000
    } else if r == 1 {
        1_258_925_411_794_167
    } else if r == 2 {
        1_584_893_192_461_113
    } else if r == 3 {
        1_995_262_314_968_880
    } else if r == 4 {
        2_511_886_431_509_580
    } else if r == 5 {
        3_162_277_660_168_379
    } else if r == 6 {
        3_981_071_705_534_973
    } else if r == 7 {
        5_011_872_336_272_723
    } else if r == 8 {
        6_309_573_444_801_932
    } else {
        7_943_282_347_242_815
    }
}

/// Rounds `c15(r)` against `10^p`, allowing exponents past the machine
/// range (where the result is zero).
fn round_c15(r: u64, p: u64) -> (n: u64)
    requires
        r < 10,
        p >= 2,
    ensures
        n == round_div(c15(r as nat), pow10(p as nat)),
{
    let c = c15_u64(r);
    if p > 16 {
        proof {
            lemma_round_div_vanishes(c15(r as nat), p as nat);
        }
        0
    } else {
        let d = pow10_u64(p);
        proof {
            reveal_with_fuel(pow10, 17);
            lemma_pow10_mono(p as nat, 16);
        }
        (c + d / 2) / d
    }
}

impl Power {
    /// Makes a power from its dBm value.
    pub fn from_dbm(dbm: i8) -> (p: Power)
        ensures
            p.dbm == dbm,
    {
        Power { dbm }
    }

    /// The decade and residue of this power: `dbm - 30 == 10 * k + r` with
    /// `0 <= r < 10`, returned shifted as `(k + 16, r)` so both are small
    /// non-negative machine integers.
    fn decade(&self) -> (kr: (u64, u64))
        ensures
            kr.0 == (self.dbm - 30) / 10 + 16,
            kr.1 == (self.dbm - 30) % 10,
            kr.0 <= 25,
            kr.1 < 10,
    {
        let e160: i64 = self.dbm as i64 + 130;
        let k160 = e160 / 10;
        let r = e160 % 10;
        proof {
            let e = self.dbm - 30;
            assert(e160 == e + 160);
            assert((e + 160) / 10 == e / 10 + 16 && (e + 160) % 10 == e % 10) by (nonlinear_arith);
        }
        (k160 as u64, r as u64)
    }

    /// The Watts value scaled by `10^4`, rounded to the nearest integer.
    pub fn watts_e4(&self) -> (n: u64)
        ensures
            n == spec_watts_e4(self.dbm as int),
    {
        let (k16, r) = self.decade();
        // divisor exponent 11 - k == 27 - (k + 16)
        round_c15(r, 27 - k16)
    }

    /// Appends the four-decimal-place Watts text to `out`.
    pub fn push_watts4(&self, out: &mut Vec<u8>)
        ensures
            final(out)@ == old(out)@ + spec_watts4(self.dbm as int),
    {
        let n = self.watts_e4();
        crate::text::push_dec_u64(out, n / 10_000);
        crate::text::push_bytes(out, ".".as_bytes());
        crate::text::push_fixed(out, n % 10_000, 4);
        assert(out@ =~= old(out)@ + spec_watts4(self.dbm as int));
    }

    /// Appends the scaled-unit Watts text to `out`.
    pub fn push_text(&self, out: &mut Vec<u8>)
        ensures
            final(out)@ == old(out)@ + spec_power_text(self.dbm as int),
    {
        let (k16, r) = self.decade();
        if k16 <= 9 {
            // below a microwatt: nanowatts to one decimal place
            let n = round_c15(r, 21 - k16);
            push_one_dec(out, n);
            crate::text::push_bytes(out, " nW".as_bytes());
        } else if k16 == 10 {
            let n = round_c15(r, 14);
            push_one_dec(out, n);
            crate::text::push_bytes(out, " \u{b5}W".as_bytes());
        } else if k16 == 11 {
            let n = round_c15(r, 14);
            crate::text::push_dec_u64(out, n);
            crate::text::push_bytes(out, " \u{b5}W".as_bytes());
        } else if k16 == 12 {
            let n = round_c15(r, 14);
            proof {
                lemma_round14_bound(r as nat);
            }
            crate::text::push_dec_u64(out, n * 10);
            crate::text::push_bytes(out, " \u{b5}W".as_bytes());
        } else if k16 == 13 {
            let n = round_c15(r, 14);
            push_one_dec(out, n);
            crate::text::push_bytes(out, " mW".as_bytes());
        } else if k16 == 14 {
            let n = round_c15(r, 14);
            crate::text::push_dec_u64(out, n);
            crate::text::push_bytes(out, " mW".as_bytes());
        } else if k16 == 15 {
            let n = round_c15(r, 14);
            proof {
                lemma_round14_bound(r as nat);
            }
            crate::text::push_dec_u64(out, n * 10);
            crate::text::push_bytes(out, " mW".as_bytes());
        } else if k16 == 16 {
            let n = round_c15(r, 14);
            push_one_dec(out, n);
            crate::text::push_bytes(out, " W".as_bytes());
        } else if k16 == 17 {
            let n = round_c15(r, 14);
            crate::text::push_dec_u64(out, n);
            crate::text::push_bytes(out, " W".as_bytes());
        } else if k16 == 18 {
            let n = round_c15(r, 14);
            proof {
                lemma_round14_bound(r as nat);
            }
            crate::text::push_dec_u64(out, n * 10);
            crate::text::push_bytes(out, " W".as_bytes());
        } else {
            // a kilowatt or more: kilowatts to one decimal place
            let n = round_c15(r, 33 - k16);
            push_one_dec(out, n);
            crate::text::push_bytes(out, " kW".as_bytes());
        }
        assert(out@ =~= old(out)@ + spec_power_text(self.dbm as int));
    }
}

/// Appends the one-decimal-place text of a value scaled by 10.
fn push_one_dec(out: &mut Vec<u8>, n: u64)
    ensures
        final(out)@ == old(out)@ + spec_one_dec(n as nat),
{
    crate::text::push_dec_u64(out, n / 10);
    crate::text::push_bytes(out, ".".as_bytes());
    out.push(48 + (n % 10) as u8);
    assert(out@ =~= old(out)@ + spec_one_dec(n as nat));
}

} // verus!
