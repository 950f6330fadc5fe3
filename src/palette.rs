use vstd::prelude::*;

verus! {

/// An opaque colour.
#[derive(Clone, Copy, Debug, PartialEq, Eq, Structural)]
pub struct Rgb {
    pub r: u8,
    pub g: u8,
    pub b: u8,
}

/// The colour of a cell of the given age: none for a dead cell, dark green
/// for a newborn, brighter greens while young, yellow and orange in middle
/// age and near-white past a hundred generations.
pub open spec fn ramp(age: u16) -> Option<Rgb> {
    if age == 0 {
        None
    } else if age == 1 {
        Some(Rgb { r: 40, g: 80, b: 40 })
    } else if age <= 5 {
        Some(Rgb { r: 60, g: 140, b: 60 })
    } else if age <= 15 {
        Some(Rgb { r: 100, g: 180, b: 50 })
    } else if age <= 40 {
        Some(Rgb { r: 180, g: 180, b: 40 })
    } else if age <= 100 {
        Some(Rgb { r: 220, g: 140, b: 30 })
    } else {
        Some(Rgb { r: 240, g: 240, b: 240 })
    }
}

/// The colour a cell of this age is painted with, dead cells black.
pub open spec fn paint(age: u16) -> Rgb {
    match ramp(age) {
        Some(c) => c,
        None => Rgb { r: 0, g: 0, b: 0 },
    }
}

/// The colour of a cell of the given age, `None` when it is dead; the
/// bands are tried from the youngest.
pub fn age_color(age: u16) -> (c: Option<Rgb>)
    ensures
        c == ramp(age),
{
    if age == 0 {
        None
    } else if age == 1 {
        Some(Rgb { r: 40, g: 80, b: 40 })
    } else if age <= 5 {
        Some(Rgb { r: 60, g: 140, b: 60 })
    } else if age <= 15 {
        Some(Rgb { r: 100, g: 180, b: 50 })
    } else if age <= 40 {
        Some(Rgb { r: 180, g: 180, b: 40 })
    } else if age <= 100 {
        Some(Rgb { r: 220, g: 140, b: 30 })
    } else {
        Some(Rgb { r: 240, g: 240, b: 240 })
    }
}

/// The colour a cell of this age is painted with in an exported frame:
/// its ramp colour, black when dead.
pub fn paint_color(age: u16) -> (c: Rgb)
    ensures
        c == paint(age),
{
    match age_color(age) {
        Some(c) => c,
        None => Rgb { r: 0, g: 0, b: 0 },
    }
}

} // verus!
