use fc5_tool::area::{contains_any, AreaError, PersistentArea, UnvalidatedPersistentArea};
use fc5_tool::coord::{Coord, CoordError};

fn c(x: i64, z: i64) -> Coord<i64> {
    Coord { x, z }
}

fn square(tl: Coord<i64>, br: Coord<i64>) -> UnvalidatedPersistentArea<u8> {
    UnvalidatedPersistentArea::Square { top_left: tl, bottom_right: br, blending: None }
}

#[test]
fn bad_persistent_area_coordinates() {
    let e = PersistentArea::try_from(square(c(31, 31), c(-31, -31))).unwrap_err();
    assert_eq!(e, AreaError::LeftOfRight);
    assert_eq!(e.message(), "top-left is to the right of bottom-right");

    let e = PersistentArea::try_from(square(c(-31, 31), c(31, -31))).unwrap_err();
    assert_eq!(e, AreaError::AboveBelow);
    assert_eq!(e.message(), "top-left is below the bottom-right");

    let e = PersistentArea::try_from(square(c(31, 31), c(31, 31))).unwrap_err();
    assert_eq!(e, AreaError::Empty);
    assert_eq!(e.message(), "area is empty");
}

#[test]
fn validation_and_messages_of_every_error() {
    assert_eq!(AreaError::LeftOfRight.message(), "top-left is to the right of bottom-right");
    assert_eq!(AreaError::AboveBelow.message(), "top-left is below the bottom-right");
    assert_eq!(AreaError::Empty.message(), "area is empty");
    assert!(PersistentArea::try_from(square(c(0, 0), c(0, 1))).is_ok());
}

#[test]
fn valid_area_keeps_its_fields() {
    let area = PersistentArea::try_from(UnvalidatedPersistentArea::Square {
        top_left: c(-31, -31),
        bottom_right: c(31, 31),
        blending: Some(7u8),
    })
    .unwrap();
    assert_eq!(area.top_left(), c(-31, -31));
    assert_eq!(area.bottom_right(), c(31, 31));
    assert_eq!(*area.blending(), Some(7u8));
    assert_eq!(
        UnvalidatedPersistentArea::from(area),
        UnvalidatedPersistentArea::Square { top_left: c(-31, -31), bottom_right: c(31, 31), blending: Some(7u8) }
    );
}

#[test]
fn containment_includes_corners() {
    let area: PersistentArea<u8> = PersistentArea::Square { top_left: c(100, 100), bottom_right: c(101, 101), blending: None };
    assert!(area.contains(c(100, 100)));
    assert!(area.contains(c(101, 101)));
    assert!(area.contains(c(100, 101)));
    assert!(!area.contains(c(99, 100)));
    assert!(!area.contains(c(100, 102)));
}

#[test]
fn containment_over_several_areas() {
    let areas: Vec<PersistentArea<u8>> = vec![
        PersistentArea::Square { top_left: c(-31, -31), bottom_right: c(31, 31), blending: None },
        PersistentArea::Square { top_left: c(100, 100), bottom_right: c(101, 101), blending: None },
    ];
    assert!(contains_any(&areas, c(0, 0)));
    assert!(contains_any(&areas, c(101, 100)));
    assert!(!contains_any(&areas, c(50, 50)));
    assert!(!contains_any(&Vec::<PersistentArea<u8>>::new(), c(0, 0)));
}

#[test]
fn area_around_an_actor() {
    let a: PersistentArea<u8> = PersistentArea::around(c(10, -10), 3, None).unwrap();
    assert_eq!(a.top_left(), c(9, -11));
    assert_eq!(a.bottom_right(), c(11, -9));
    let b: PersistentArea<u8> = PersistentArea::around(c(10, -10), 4, Some(1)).unwrap();
    assert_eq!(b.top_left(), c(8, -12));
    assert_eq!(b.bottom_right(), c(12, -8));
    assert_eq!(*b.blending(), Some(1));
    let d: PersistentArea<u8> = PersistentArea::around(c(5, 5), 0, None).unwrap();
    assert_eq!(d.top_left(), c(4, 4));
    assert_eq!(d.bottom_right(), c(6, 6));
    let one: PersistentArea<u8> = PersistentArea::around(c(5, 5), 1, None).unwrap();
    assert_eq!(one.top_left(), c(4, 4));
    assert_eq!(one.bottom_right(), c(6, 6));
    assert_eq!(PersistentArea::<u8>::around(c(i64::MAX, 0), 3, None), Err(CoordError::OutOfRange));
}
