use vstd::prelude::*;

verus! {

/// A color of the disk.
#[derive(Copy, Clone, PartialEq, Eq, Structural, Hash, Debug)]
pub enum DiskColor {
    /// A light side of the disk.
    Light,
    /// A dark side of the disk.
    Dark,
}

/// The color of the other player.
pub open spec fn opposite_color(color: DiskColor) -> DiskColor {
    match color {
        DiskColor::Light => DiskColor::Dark,
        DiskColor::Dark => DiskColor::Light,
    }
}

/// A trait which provides an extension method for the [`DiskColor`].
pub trait DiskColorExt {
    /// Returns the opposite color.
    fn opposite(&self) -> (res: DiskColor);
}

impl DiskColorExt for DiskColor {
    fn opposite(&self) -> (res: DiskColor)
        ensures
            res == opposite_color(*self),
    {
        match self {
            DiskColor::Light => DiskColor::Dark,
            DiskColor::Dark => DiskColor::Light,
        }
    }
}

} // verus!
