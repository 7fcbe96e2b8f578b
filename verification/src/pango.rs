//! Normalization tables for a Pango-style backend: its discovery library
//! reports stretch and weight as closed enumerations, which a driver maps
//! onto the numeric scales of [`crate::font_info::FontInfo`] through these
//! functions.

use vstd::prelude::*;

verus! {

/// A stretch class as a Pango-style discovery library reports it.
#[derive(Clone, Copy, Debug, PartialEq, Eq, Structural)]
pub enum StretchClass {
    UltraCondensed,
    ExtraCondensed,
    Condensed,
    SemiCondensed,
    Normal,
    SemiExpanded,
    Expanded,
    ExtraExpanded,
    UltraExpanded,
}

/// The stretch ratio of a stretch class, in thousandths (the CSS
/// `font-stretch` ratios; 1000 is normal, smaller is condensed).
pub open spec fn spec_stretch_thousandths(s: StretchClass) -> u32 {
    match s {
        StretchClass::UltraCondensed => 500,
        StretchClass::ExtraCondensed => 625,
        StretchClass::Condensed => 750,
        StretchClass::SemiCondensed => 875,
        StretchClass::Normal => 1000,
        StretchClass::SemiExpanded => 1125,
        StretchClass::Expanded => 1250,
        StretchClass::ExtraExpanded => 1500,
        StretchClass::UltraExpanded => 2000,
    }
}

/// The stretch ratio of a stretch class, in thousandths.
pub fn stretch_thousandths(s: StretchClass) -> (r: u32)
    ensures
        r == spec_stretch_thousandths(s),
{
    match s {
        StretchClass::UltraCondensed => 500,
        StretchClass::ExtraCondensed => 625,
        StretchClass::Condensed => 750,
        StretchClass::SemiCondensed => 875,
        StretchClass::Normal => 1000,
        StretchClass::SemiExpanded => 1125,
        StretchClass::Expanded => 1250,
        StretchClass::ExtraExpanded => 1500,
        StretchClass::UltraExpanded => 2000,
    }
}

/// A weight class as a Pango-style discovery library reports it.
#[derive(Clone, Copy, Debug, PartialEq, Eq, Structural)]
pub enum WeightClass {
    Thin,
    Ultralight,
    Semilight,
    Light,
    Book,
    Normal,
    Medium,
    Semibold,
    Bold,
    Ultrabold,
    Heavy,
}

/// The numeric weight of a weight class on the 100–900 scale.
pub open spec fn spec_weight_value(w: WeightClass) -> u32 {
    match w {
        WeightClass::Thin => 100,
        WeightClass::Ultralight => 200,
        WeightClass::Semilight => 250,
        WeightClass::Light => 300,
        WeightClass::Book => 350,
        WeightClass::Normal => 400,
        WeightClass::Medium => 500,
        WeightClass::Semibold => 600,
        WeightClass::Bold => 700,
        WeightClass::Ultrabold => 800,
        WeightClass::Heavy => 900,
    }
}

/// The numeric weight of a weight class on the 100–900 scale.
pub fn weight_value(w: WeightClass) -> (r: u32)
    ensures
        r == spec_weight_value(w),
{
    match w {
        WeightClass::Thin => 100,
        WeightClass::Ultralight => 200,
        WeightClass::Semilight => 250,
        WeightClass::Light => 300,
        WeightClass::Book => 350,
        WeightClass::Normal => 400,
        WeightClass::Medium => 500,
        WeightClass::Semibold => 600,
        WeightClass::Bold => 700,
        WeightClass::Ultrabold => 800,
        WeightClass::Heavy => 900,
    }
}

} // verus!
