//! The unit model: the scales an energy (or power) value can be tagged with,
//! and exact integer conversion between compatible scales.
use vstd::prelude::*;

use crate::sensors::SensorError;

verus! {

/// The scale of a measured value.  Energy scales (joule family) are what
/// records carry; the power scale exists so that a backend bug that mixes
/// quantities is rejected instead of silently coerced.
#[derive(Clone, Copy, Debug, PartialEq, Eq, Structural)]
pub enum EnergyUnit {
    Joule,
    MilliJoule,
    MicroJoule,
    Watt,
}

/// Whether the unit measures energy (as opposed to power).
pub open spec fn is_energy(u: EnergyUnit) -> bool {
    u is Joule || u is MilliJoule || u is MicroJoule
}

/// Two units are convertible exactly when they measure the same quantity.
pub open spec fn compatible(a: EnergyUnit, b: EnergyUnit) -> bool {
    is_energy(a) == is_energy(b)
}

/// The exact power-of-ten factor from this unit to the finest scale of its
/// quantity (microjoule for energy, watt for power).
pub open spec fn spec_scale(u: EnergyUnit) -> int {
    match u {
        EnergyUnit::Joule => 1000000,
        EnergyUnit::MilliJoule => 1000,
        EnergyUnit::MicroJoule => 1,
        EnergyUnit::Watt => 1,
    }
}

impl EnergyUnit {
    /// The conversion factor to the finest scale of the unit's quantity.
    pub fn scale(&self) -> (s: u64)
        ensures
            s as int == spec_scale(*self),
    {
        match self {
            EnergyUnit::Joule => 1000000,
            EnergyUnit::MilliJoule => 1000,
            EnergyUnit::MicroJoule => 1,
            EnergyUnit::Watt => 1,
        }
    }

    /// The human-readable label of the unit.
    pub fn label(&self) -> (r: &'static str)
        ensures
            r@ == unit_label(*self),
    {
        match self {
            EnergyUnit::Joule => "J",
            EnergyUnit::MilliJoule => "mJ",
            EnergyUnit::MicroJoule => "uJ",
            EnergyUnit::Watt => "W",
        }
    }
}

/// The label text of each unit.
pub open spec fn unit_label(u: EnergyUnit) -> Seq<char> {
    match u {
        EnergyUnit::Joule => "J"@,
        EnergyUnit::MilliJoule => "mJ"@,
        EnergyUnit::MicroJoule => "uJ"@,
        EnergyUnit::Watt => "W"@,
    }
}

/// Converts a non-negative value from one unit to another.
///
/// Between compatible units the conversion is the exact power-of-ten scale;
/// towards a coarser unit the quotient is rounded down (lossy, as documented:
/// exact display conversion is the caller's concern).  Between incompatible
/// quantities the conversion is refused with `UnsupportedUnit`.
pub fn convert(value: i128, from: EnergyUnit, to: EnergyUnit) -> (r: Result<
    i128,
    SensorError,
>)
    requires
        0 <= value,
        value * spec_scale(from) <= i128::MAX,
    ensures
        compatible(from, to) ==> (r matches Ok(v) && v == value * spec_scale(from) / spec_scale(
            to,
        )),
        !compatible(from, to) ==> (r matches Err(e) && e matches SensorError::UnsupportedUnit {
            from: ef,
            to: et,
        } && ef == from && et == to),
{
    let energy_from = matches!(from, EnergyUnit::Joule | EnergyUnit::MilliJoule | EnergyUnit::MicroJoule);
    let energy_to = matches!(to, EnergyUnit::Joule | EnergyUnit::MilliJoule | EnergyUnit::MicroJoule);
    if energy_from != energy_to {
        return Err(SensorError::UnsupportedUnit { from, to });
    }
    let fine: u128 = (value as u128) * (from.scale() as u128);
    let q: u128 = fine / (to.scale() as u128);
    Ok(q as i128)
}

} // verus!
