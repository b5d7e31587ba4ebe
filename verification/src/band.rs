//! Frequency classifier: maps a frequency in Hz to a named amateur band.
//!
//! The table is a fixed set of disjoint inclusive Hz ranges from 135.7 kHz
//! to 250 GHz; a frequency in a gap between bands has no classification.

use vstd::prelude::*;
use vstd::string::StringSliceAdditionalSpecFns;
use crate::text::dec_digits;

verus! {

/// A named amateur band, written here as its wavelength designator.
/// `M*` are metre bands, `Cm*` centimetre bands, `Mm*` millimetre bands;
/// fractional designators spell the point (`M1p25` is the 1.25 m band).
#[derive(Clone, Copy, Debug, PartialEq, Eq, Structural)]
pub enum Band {
    M2200,
    M1750,
    M630,
    M160,
    M80,
    M60,
    M40,
    M30,
    M20,
    M17,
    M15,
    M12,
    M10,
    M8,
    M6,
    M5,
    M4,
    M2,
    M1p25,
    Cm70,
    Cm33,
    Cm23,
    Cm13,
    Cm9,
    Cm6,
    Cm1p25,
    Mm6,
    Mm4,
    Mm2p5,
    Mm2,
    Mm1,
}

/// The band containing a frequency, by the fixed range table.
pub open spec fn spec_classify(hz: u64) -> Option<Band> {
    if 135_700 <= hz <= 137_800 {
        Some(Band::M2200)
    } else if 160_000 <= hz <= 190_000 {
        Some(Band::M1750)
    } else if 472_000 <= hz <= 479_000 {
        Some(Band::M630)
    } else if 1_800_000 <= hz <= 2_000_000 {
        Some(Band::M160)
    } else if 3_500_000 <= hz <= 4_000_000 {
        Some(Band::M80)
    } else if 5_060_000 <= hz <= 5_450_500 {
        Some(Band::M60)
    } else if 7_000_000 <= hz <= 7_300_000 {
        Some(Band::M40)
    } else if 10_100_000 <= hz <= 10_150_000 {
        Some(Band::M30)
    } else if 14_000_000 <= hz <= 14_350_000 {
        Some(Band::M20)
    } else if 18_068_000 <= hz <= 18_168_000 {
        Some(Band::M17)
    } else if 21_000_000 <= hz <= 21_450_000 {
        Some(Band::M15)
    } else if 24_890_000 <= hz <= 24_990_000 {
        Some(Band::M12)
    } else if 28_000_000 <= hz <= 29_700_000 {
        Some(Band::M10)
    } else if 40_000_000 <= hz <= 45_000_000 {
        Some(Band::M8)
    } else if 50_000_000 <= hz <= 54_000_000 {
        Some(Band::M6)
    } else if 54_000_001 <= hz <= 69_900_000 {
        Some(Band::M5)
    } else if 70_000_000 <= hz <= 71_000_000 {
        Some(Band::M4)
    } else if 144_000_000 <= hz <= 148_000_000 {
        Some(Band::M2)
    } else if 219_000_000 <= hz <= 225_000_000 {
        Some(Band::M1p25)
    } else if 420_000_000 <= hz <= 450_000_000 {
        Some(Band::Cm70)
    } else if 902_000_000 <= hz <= 928_000_000 {
        Some(Band::Cm33)
    } else if 1_240_000_000 <= hz <= 1_300_000_000 {
        Some(Band::Cm23)
    } else if 2_300_000_000 <= hz <= 2_450_000_000 {
        Some(Band::Cm13)
    } else if 3_300_000_000 <= hz <= 3_500_000_000 {
        Some(Band::Cm9)
    } else if 5_600_000_000 <= hz <= 5_925_000_000 {
        Some(Band::Cm6)
    } else if 10_000_000_000 <= hz <= 10_500_000_000 {
        Some(Band::Cm1p25)
    } else if 24_000_000_000 <= hz <= 24_250_000_000 {
        Some(Band::Mm6)
    } else if 75_500_000_000 <= hz <= 81_000_000_000 {
        Some(Band::Mm4)
    } else if 119_980_000_000 <= hz <= 120_020_000_000 {
        Some(Band::Mm2p5)
    } else if 142_000_000_000 <= hz <= 149_000_000_000 {
        Some(Band::Mm2)
    } else if 241_000_000_000 <= hz <= 250_000_000_000 {
        Some(Band::Mm1)
    } else {
        None
    }
}

/// Classifies a frequency in Hz, or reports that it lies in a gap.
pub fn classify(hz: u64) -> (r: Option<Band>)
    ensures
        r == spec_classify(hz),
{
    if 135_700 <= hz && hz <= 137_800 {
        Some(Band::M2200)
    } else if 160_000 <= hz && hz <= 190_000 {
        Some(Band::M1750)
    } else if 472_000 <= hz && hz <= 479_000 {
        Some(Band::M630)
    } else if 1_800_000 <= hz && hz <= 2_000_000 {
        Some(Band::M160)
    } else if 3_500_000 <= hz && hz <= 4_000_000 {
        Some(Band::M80)
    } else if 5_060_000 <= hz && hz <= 5_450_500 {
        Some(Band::M60)
    } else if 7_000_000 <= hz && hz <= 7_300_000 {
        Some(Band::M40)
    } else if 10_100_000 <= hz && hz <= 10_150_000 {
        Some(Band::M30)
    } else if 14_000_000 <= hz && hz <= 14_350_000 {
        Some(Band::M20)
    } else if 18_068_000 <= hz && hz <= 18_168_000 {
        Some(Band::M17)
    } else if 21_000_000 <= hz && hz <= 21_450_000 {
        Some(Band::M15)
    } else if 24_890_000 <= hz && hz <= 24_990_000 {
        Some(Band::M12)
    } else if 28_000_000 <= hz && hz <= 29_700_000 {
        Some(Band::M10)
    } else if 40_000_000 <= hz && hz <= 45_000_000 {
        Some(Band::M8)
    } else if 50_000_000 <= hz && hz <= 54_000_000 {
        Some(Band::M6)
    } else if 54_000_001 <= hz && hz <= 69_900_000 {
        Some(Band::M5)
    } else if 70_000_000 <= hz && hz <= 71_000_000 {
        Some(Band::M4)
    } else if 144_000_000 <= hz && hz <= 148_000_000 {
        Some(Band::M2)
    } else if 219_000_000 <= hz && hz <= 225_000_000 {
        Some(Band::M1p25)
    } else if 420_000_000 <= hz && hz <= 450_000_000 {
        Some(Band::Cm70)
    } else if 902_000_000 <= hz && hz <= 928_000_000 {
        Some(Band::Cm33)
    } else if 1_240_000_000 <= hz && hz <= 1_300_000_000 {
        Some(Band::Cm23)
    } else if 2_300_000_000 <= hz && hz <= 2_450_000_000 {
        Some(Band::Cm13)
    } else if 3_300_000_000 <= hz && hz <= 3_500_000_000 {
        Some(Band::Cm9)
    } else if 5_600_000_000 <= hz && hz <= 5_925_000_000 {
        Some(Band::Cm6)
    } else if 10_000_000_000 <= hz && hz <= 10_500_000_000 {
        Some(Band::Cm1p25)
    } else if 24_000_000_000 <= hz && hz <= 24_250_000_000 {
        Some(Band::Mm6)
    } else if 75_500_000_000 <= hz && hz <= 81_000_000_000 {
        Some(Band::Mm4)
    } else if 119_980_000_000 <= hz && hz <= 120_020_000_000 {
        Some(Band::Mm2p5)
    } else if 142_000_000_000 <= hz && hz <= 149_000_000_000 {
        Some(Band::Mm2)
    } else if 241_000_000_000 <= hz && hz <= 250_000_000_000 {
        Some(Band::Mm1)
    } else {
        None
    }
}

/// Numeric wavelength designator of a band, as text (for example `2200`).
pub open spec fn spec_designator(b: Band) -> Seq<u8> {
    match b {
        Band::M2200 => "2200".spec_bytes(),
        Band::M1750 => "1750".spec_bytes(),
        Band::M630 => "630".spec_bytes(),
        Band::M160 => "160".spec_bytes(),
        Band::M80 => "80".spec_bytes(),
        Band::M60 => "60".spec_bytes(),
        Band::M40 => "40".spec_bytes(),
        Band::M30 => "30".spec_bytes(),
        Band::M20 => "20".spec_bytes(),
        Band::M17 => "17".spec_bytes(),
        Band::M15 => "15".spec_bytes(),
        Band::M12 => "12".spec_bytes(),
        Band::M10 => "10".spec_bytes(),
        Band::M8 => "8".spec_bytes(),
        Band::M6 => "6".spec_bytes(),
        Band::M5 => "5".spec_bytes(),
        Band::M4 => "4".spec_bytes(),
        Band::M2 => "2".spec_bytes(),
        Band::M1p25 => "1.25".spec_bytes(),
        Band::Cm70 => "70".spec_bytes(),
        Band::Cm33 => "33".spec_bytes(),
        Band::Cm23 => "23".spec_bytes(),
        Band::Cm13 => "13".spec_bytes(),
        Band::Cm9 => "9".spec_bytes(),
        Band::Cm6 => "6".spec_bytes(),
        Band::Cm1p25 => "1.25".spec_bytes(),
        Band::Mm6 => "6".spec_bytes(),
        Band::Mm4 => "4".spec_bytes(),
        Band::Mm2p5 => "2.5".spec_bytes(),
        Band::Mm2 => "2".spec_bytes(),
        Band::Mm1 => "1".spec_bytes(),
    }
}

/// Length unit of a band's designator: `m`, `cm` or `mm`.
pub open spec fn spec_unit(b: Band) -> Seq<u8> {
    match b {
        Band::M2200 | Band::M1750 | Band::M630 | Band::M160 | Band::M80 | Band::M60
        | Band::M40 | Band::M30 | Band::M20 | Band::M17 | Band::M15 | Band::M12
        | Band::M10 | Band::M8 | Band::M6 | Band::M5 | Band::M4 | Band::M2
        | Band::M1p25 => "m".spec_bytes(),
        Band::Cm70 | Band::Cm33 | Band::Cm23 | Band::Cm13 | Band::Cm9 | Band::Cm6
        | Band::Cm1p25 => "cm".spec_bytes(),
        Band::Mm6 | Band::Mm4 | Band::Mm2p5 | Band::Mm2 | Band::Mm1 => "mm".spec_bytes(),
    }
}

/// Compact band form used for the key and the record tag
/// (designator and unit joined, for example `2200m`).
pub open spec fn spec_tag(b: Band) -> Seq<u8> {
    spec_designator(b) + spec_unit(b)
}

/// Human-readable band form: designator, one space, unit (`2200 m`).
pub open spec fn spec_text(b: Band) -> Seq<u8> {
    spec_designator(b) + " ".spec_bytes() + spec_unit(b)
}

impl Band {
    /// Wavelength designator text of this band.
    pub fn designator(&self) -> (r: &'static str)
        ensures
            r.spec_bytes() == spec_designator(*self),
    {
        match self {
            Band::M2200 => "2200",
            Band::M1750 => "1750",
            Band::M630 => "630",
            Band::M160 => "160",
            Band::M80 => "80",
            Band::M60 => "60",
            Band::M40 => "40",
            Band::M30 => "30",
            Band::M20 => "20",
            Band::M17 => "17",
            Band::M15 => "15",
            Band::M12 => "12",
            Band::M10 => "10",
            Band::M8 => "8",
            Band::M6 => "6",
            Band::M5 => "5",
            Band::M4 => "4",
            Band::M2 => "2",
            Band::M1p25 => "1.25",
            Band::Cm70 => "70",
            Band::Cm33 => "33",
            Band::Cm23 => "23",
            Band::Cm13 => "13",
            Band::Cm9 => "9",
            Band::Cm6 => "6",
            Band::Cm1p25 => "1.25",
            Band::Mm6 => "6",
            Band::Mm4 => "4",
            Band::Mm2p5 => "2.5",
            Band::Mm2 => "2",
            Band::Mm1 => "1",
        }
    }

    /// Length unit text of this band.
    pub fn unit(&self) -> (r: &'static str)
        ensures
            r.spec_bytes() == spec_unit(*self),
    {
        match self {
            Band::M2200 | Band::M1750 | Band::M630 | Band::M160 | Band::M80 | Band::M60
            | Band::M40 | Band::M30 | Band::M20 | Band::M17 | Band::M15 | Band::M12
            | Band::M10 | Band::M8 | Band::M6 | Band::M5 | Band::M4 | Band::M2
            | Band::M1p25 => "m",
            Band::Cm70 | Band::Cm33 | Band::Cm23 | Band::Cm13 | Band::Cm9 | Band::Cm6
            | Band::Cm1p25 => "cm",
            Band::Mm6 | Band::Mm4 | Band::Mm2p5 | Band::Mm2 | Band::Mm1 => "mm",
        }
    }

    /// Appends the compact form (`2200m`) to `out`.
    pub fn push_tag(&self, out: &mut Vec<u8>)
        ensures
            final(out)@ == old(out)@ + spec_tag(*self),
    {
        crate::text::push_bytes(out, self.designator().as_bytes());
        crate::text::push_bytes(out, self.unit().as_bytes());
        assert(out@ =~= old(out)@ + spec_tag(*self));
    }

    /// Appends the human-readable form (`2200 m`) to `out`.
    pub fn push_text(&self, out: &mut Vec<u8>)
        ensures
            final(out)@ == old(out)@ + spec_text(*self),
    {
        crate::text::push_bytes(out, self.designator().as_bytes());
        crate::text::push_bytes(out, " ".as_bytes());
        crate::text::push_bytes(out, self.unit().as_bytes());
        assert(out@ =~= old(out)@ + spec_text(*self));
    }
}

/// Raw frequency text, `<hz> Hz`, used where no band classifies a frequency.
pub open spec fn spec_hz_text(hz: u64) -> Seq<u8> {
    dec_digits(hz as nat) + " Hz".spec_bytes()
}

/// Appends the raw frequency text (`<hz> Hz`) to `out`.
pub fn push_hz_text(out: &mut Vec<u8>, hz: u64)
    ensures
        final(out)@ == old(out)@ + spec_hz_text(hz),
{
    crate::text::push_dec_u64(out, hz);
    crate::text::push_bytes(out, " Hz".as_bytes());
    assert(out@ =~= old(out)@ + spec_hz_text(hz));
}

} // verus!
