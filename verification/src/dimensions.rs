// SPDX-License-Identifier: BSD-3-Clause
// Copyright 2023, (Feohr) Mohammed Rehaan and the ToadWriter contributors.

//! Paper sizes, and the size of a page in pixels.

use vstd::prelude::*;

verus! {

/// The size of a page: whole inches as the paper tables give them, or pixels once
/// a resolution has been applied.
#[derive(Debug, Clone, Copy, PartialEq, Eq, Structural)]
pub struct Pixels {
    pub height: i32,
    pub width: i32,
}

/// North American standard paper sizes.
#[derive(Debug, Clone, Copy, PartialEq, Eq, Structural)]
pub enum NASDimensions {
    Letter,
    Legal,
    Tabloid,
    Ledger,
}

/// International ISO A-series paper sizes.
#[derive(Debug, Clone, Copy, PartialEq, Eq, Structural)]
pub enum ISODimensions {
    A0,
    A1,
    A2,
    A3,
    A4,
    A5,
    A6,
    A7,
    A8,
}

impl Default for NASDimensions {
    fn default() -> (size: Self)
        ensures
            size == NASDimensions::Letter,
    {
        NASDimensions::Letter
    }
}

impl Default for ISODimensions {
    fn default() -> (size: Self)
        ensures
            size == ISODimensions::A6,
    {
        ISODimensions::A6
    }
}

impl ISODimensions {
    /// The two sides of the paper in tenths of an inch, in the order in which
    /// [`Pixels`] holds them.
    pub open spec fn tenths(self) -> (int, int) {
        match self {
            ISODimensions::A0 => (331, 468),
            ISODimensions::A1 => (234, 331),
            ISODimensions::A2 => (165, 234),
            ISODimensions::A3 => (117, 165),
            ISODimensions::A4 => (83, 117),
            ISODimensions::A5 => (58, 85),
            ISODimensions::A6 => (41, 58),
            ISODimensions::A7 => (29, 41),
            ISODimensions::A8 => (20, 29),
        }
    }

    /// The size of the paper in whole inches: what is left of an inch is dropped.
    pub fn get(&self) -> (size: Pixels)
        ensures
            size.height == self.tenths().0 / 10,
            size.width == self.tenths().1 / 10,
    {
        let (height, width): (i32, i32) = match self {
            ISODimensions::A0 => (331, 468),
            ISODimensions::A1 => (234, 331),
            ISODimensions::A2 => (165, 234),
            ISODimensions::A3 => (117, 165),
            ISODimensions::A4 => (83, 117),
            ISODimensions::A5 => (58, 85),
            ISODimensions::A6 => (41, 58),
            ISODimensions::A7 => (29, 41),
            ISODimensions::A8 => (20, 29),
        };
        Pixels { height: height / 10, width: width / 10 }
    }
}

impl NASDimensions {
    /// The two sides of the paper in tenths of an inch, in the order in which
    /// [`Pixels`] holds them.
    pub open spec fn tenths(self) -> (int, int) {
        match self {
            NASDimensions::Letter => (85, 110),
            NASDimensions::Legal => (85, 140),
            NASDimensions::Tabloid => (110, 170),
            NASDimensions::Ledger => (170, 110),
        }
    }

    /// The size of the paper in whole inches: what is left of an inch is dropped.
    pub fn get(&self) -> (size: Pixels)
        ensures
            size.height == self.tenths().0 / 10,
            size.width == self.tenths().1 / 10,
    {
        let (height, width): (i32, i32) = match self {
            NASDimensions::Letter => (85, 110),
            NASDimensions::Legal => (85, 140),
            NASDimensions::Tabloid => (110, 170),
            NASDimensions::Ledger => (170, 110),
        };
        Pixels { height: height / 10, width: width / 10 }
    }
}

impl Pixels {
    /// Whether a page of this size can be had at `resolution` pixels to the inch
    /// without leaving the range of `i32`.
    pub open spec fn fits(self, resolution: i32) -> bool {
        &&& i32::MIN <= self.height * resolution <= i32::MAX
        &&& i32::MIN <= self.width * resolution <= i32::MAX
    }

    /// The size in pixels of a page of this size in inches, at `resolution` pixels
    /// to the inch.
    pub fn with_resolution(self, resolution: i32) -> (size: Pixels)
        requires
            self.fits(resolution),
        ensures
            size.height == self.height * resolution,
            size.width == self.width * resolution,
    {
        Pixels { height: self.height * resolution, width: self.width * resolution }
    }

    /// The size in pixels of a page of this size in inches, at `resolution` pixels
    /// to the inch, or `None` where that leaves the range of `i32`.
    pub fn checked_with_resolution(self, resolution: i32) -> (size: Option<Pixels>)
        ensures
            size is Some <==> self.fits(resolution),
            size matches Some(pixels) ==> pixels.height == self.height * resolution && pixels.width
                == self.width * resolution,
    {
        match (self.height.checked_mul(resolution), self.width.checked_mul(resolution)) {
            (Some(height), Some(width)) => Some(Pixels { height, width }),
            _ => None,
        }
    }
}

} // verus!
