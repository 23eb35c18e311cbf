use vstd::prelude::*;

verus! {

/// A non-negative 64-bit magnitude, measured in bytes.
#[derive(Clone, Copy, PartialEq, Eq, Structural, Debug, Default)]
pub struct Bytes(pub u64);

/// One KiB: 1024 bytes.
pub const KIB: u64 = 0x400;

/// One MiB: 1024 KiB.
pub const MIB: u64 = 0x100000;

/// One GiB: 1024 MiB.
pub const GIB: u64 = 0x40000000;

/// One TiB: 1024 GiB.
pub const TIB: u64 = 0x10000000000;

/// One PiB: 1024 TiB.
pub const PIB: u64 = 0x4000000000000;

/// One EiB: 1024 PiB.
pub const EIB: u64 = 0x1000000000000000;

/// The binary units a byte count can be rendered in.
#[derive(Clone, Copy, PartialEq, Eq, Structural, Debug)]
pub enum ByteUnit {
    B,
    KiB,
    MiB,
    GiB,
    TiB,
    PiB,
    EiB,
}

/// The size of one unit, in bytes.
pub open spec fn unit_size(u: ByteUnit) -> int {
    match u {
        ByteUnit::B => 1,
        ByteUnit::KiB => KIB as int,
        ByteUnit::MiB => MIB as int,
        ByteUnit::GiB => GIB as int,
        ByteUnit::TiB => TIB as int,
        ByteUnit::PiB => PIB as int,
        ByteUnit::EiB => EIB as int,
    }
}

/// The largest unit whose size does not exceed `d`; plain bytes when `d`
/// is below one KiB.
pub open spec fn spec_unit_of(d: u64) -> ByteUnit {
    if d >= EIB {
        ByteUnit::EiB
    } else if d >= PIB {
        ByteUnit::PiB
    } else if d >= TIB {
        ByteUnit::TiB
    } else if d >= GIB {
        ByteUnit::GiB
    } else if d >= MIB {
        ByteUnit::MiB
    } else if d >= KIB {
        ByteUnit::KiB
    } else {
        ByteUnit::B
    }
}

/// The whole number of units in `d`, for `d`'s own unit.
pub open spec fn spec_whole(d: u64) -> int {
    d as int / unit_size(spec_unit_of(d))
}

/// `n / d` rounded to the nearest integer; a remainder of exactly one
/// half rounds upward.
pub open spec fn round_div(n: int, d: int) -> int {
    (2 * n + d) / (2 * d)
}

/// The remainder of `d` within its unit, scaled to three decimal digits
/// and rounded to the nearest: `(d mod size) * 1000 / size` to the
/// nearest integer. A remainder that nearly fills the unit can round
/// all the way up to 1000.
pub open spec fn spec_frac(d: u64) -> int {
    round_div((d as int % unit_size(spec_unit_of(d))) * 1000, unit_size(spec_unit_of(d)))
}

/// A byte count decomposed for human-readable display: `whole` units,
/// a sub-unit fraction in rounded thousandths, and the unit itself.
#[derive(Clone, Copy, PartialEq, Eq, Structural, Debug)]
pub struct HumanSize {
    pub whole: u64,
    pub frac: u64,
    pub unit: ByteUnit,
}

/// The sub-unit remainder of `d` scaled to three decimal digits,
/// rounded to the nearest (ties upward).
fn frac_of(d: u64, div: u64) -> (r: u64)
    requires
        div >= 1,
    ensures
        r == round_div((d as int % div as int) * 1000, div as int),
        r <= 1000,
{
    let rem = d % div;
    let scaled: u128 = ((rem as u128) * 2000 + (div as u128)) / (2 * (div as u128));
    proof {
        assert(rem < div);
        assert((2 * ((rem as int) * 1000) + div) / (2 * (div as int)) <= 1000) by (nonlinear_arith)
            requires
                rem < div,
                div >= 1,
        ;
    }
    scaled as u64
}

impl Bytes {
    /// Sum of this count and a plain number of bytes.
    pub fn add(self, rhs: u64) -> (r: Bytes)
        requires
            self.0 + rhs <= u64::MAX,
        ensures
            r.0 == self.0 + rhs,
    {
        Bytes(self.0 + rhs)
    }

    /// Accumulate another count into this one.
    pub fn add_assign(&mut self, rhs: Bytes)
        requires
            old(self).0 + rhs.0 <= u64::MAX,
        ensures
            final(self).0 == old(self).0 + rhs.0,
    {
        self.0 = self.0 + rhs.0;
    }

    /// Sum of this count and a plain number of bytes, or `None` when the
    /// sum does not fit in 64 bits.
    pub fn checked_add(self, rhs: u64) -> (r: Option<Bytes>)
        ensures
            self.0 + rhs <= u64::MAX ==> r == Some(Bytes((self.0 + rhs) as u64)),
            self.0 + rhs > u64::MAX ==> r is None,
    {
        if rhs <= u64::MAX - self.0 {
            Some(Bytes(self.0 + rhs))
        } else {
            None
        }
    }

    /// Decompose the count into the largest binary unit it reaches, the
    /// whole number of such units, and the remainder scaled to a
    /// three-digit fraction, rounded to the nearest thousandth (ties
    /// upward, so a remainder that nearly fills the unit can show as
    /// 1000). A count below one KiB stays in plain bytes with a zero
    /// fraction.
    pub fn human(self) -> (h: HumanSize)
        ensures
            h.unit == spec_unit_of(self.0),
            h.whole == spec_whole(self.0),
            h.frac == spec_frac(self.0),
            h.frac <= 1000,
    {
        let d = self.0;
        if d >= EIB {
            HumanSize { whole: d / EIB, frac: frac_of(d, EIB), unit: ByteUnit::EiB }
        } else if d >= PIB {
            HumanSize { whole: d / PIB, frac: frac_of(d, PIB), unit: ByteUnit::PiB }
        } else if d >= TIB {
            HumanSize { whole: d / TIB, frac: frac_of(d, TIB), unit: ByteUnit::TiB }
        } else if d >= GIB {
            HumanSize { whole: d / GIB, frac: frac_of(d, GIB), unit: ByteUnit::GiB }
        } else if d >= MIB {
            HumanSize { whole: d / MIB, frac: frac_of(d, MIB), unit: ByteUnit::MiB }
        } else if d >= KIB {
            HumanSize { whole: d / KIB, frac: frac_of(d, KIB), unit: ByteUnit::KiB }
        } else {
            proof {
                // in plain bytes the unit is one, and a zero remainder rounds to zero
                assert((2 * 0int + 1int) / (2 * 1int) == 0);
            }
            HumanSize { whole: d, frac: 0, unit: ByteUnit::B }
        }
    }
}

} // verus!
