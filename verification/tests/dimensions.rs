// SPDX-License-Identifier: BSD-3-Clause
// Copyright 2023, (Feohr) Mohammed Rehaan and the ToadWriter contributors.

use toadwriter::dimensions::{ISODimensions, NASDimensions, Pixels};

#[test]
fn iso_sizes_in_whole_inches() {
    assert_eq!(ISODimensions::A0.get(), Pixels { height: 33, width: 46 });
    assert_eq!(ISODimensions::A1.get(), Pixels { height: 23, width: 33 });
    assert_eq!(ISODimensions::A2.get(), Pixels { height: 16, width: 23 });
    assert_eq!(ISODimensions::A3.get(), Pixels { height: 11, width: 16 });
    assert_eq!(ISODimensions::A4.get(), Pixels { height: 8, width: 11 });
    assert_eq!(ISODimensions::A5.get(), Pixels { height: 5, width: 8 });
    assert_eq!(ISODimensions::A6.get(), Pixels { height: 4, width: 5 });
    assert_eq!(ISODimensions::A7.get(), Pixels { height: 2, width: 4 });
    assert_eq!(ISODimensions::A8.get(), Pixels { height: 2, width: 2 });
}

#[test]
fn nas_sizes_in_whole_inches() {
    assert_eq!(NASDimensions::Letter.get(), Pixels { height: 8, width: 11 });
    assert_eq!(NASDimensions::Legal.get(), Pixels { height: 8, width: 14 });
    assert_eq!(NASDimensions::Tabloid.get(), Pixels { height: 11, width: 17 });
    assert_eq!(NASDimensions::Ledger.get(), Pixels { height: 17, width: 11 });
}

#[test]
fn default_sizes() {
    assert_eq!(NASDimensions::default(), NASDimensions::Letter);
    assert_eq!(ISODimensions::default(), ISODimensions::A6);
}

#[test]
fn pixels_at_a_resolution() {
    let page = ISODimensions::default().get().with_resolution(300);
    assert_eq!(page, Pixels { height: 1200, width: 1500 });
    let page = NASDimensions::Legal.get().with_resolution(72);
    assert_eq!(page, Pixels { height: 576, width: 1008 });
}

#[test]
fn pixels_out_of_range() {
    let page = Pixels { height: 4, width: 5 };
    assert_eq!(page.checked_with_resolution(300), Some(Pixels { height: 1200, width: 1500 }));
    assert_eq!(page.checked_with_resolution(i32::MAX / 4), None);
    assert_eq!(
        page.checked_with_resolution(i32::MAX / 5),
        Some(Pixels { height: 4 * (i32::MAX / 5), width: 5 * (i32::MAX / 5) }),
    );
    assert_eq!(page.checked_with_resolution(i32::MIN), None);
}
