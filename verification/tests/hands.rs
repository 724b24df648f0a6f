use klayan::geometry::{Geometry, Row, U};
use klayan::hands::Finger::{
    LeftIndex, LeftMiddle, LeftPinky, LeftRing, RightIndex, RightMiddle, RightPinky, RightRing, Thumb,
};
use klayan::hands::RollDirection::{DifferentHands, Inside, Outside, SameFinger};
use klayan::hands::{Finger, Hand};
use klayan::kalamine::PhysicalKey;
use klayan::kalamine::PhysicalKey::{
    Backslash, Digit1, Equal, IntlBackslash, KeyA, KeyB, KeyE, KeyQ, KeyT, KeyW, KeyZ, Space,
};

#[test]
fn finger_distance() {
    assert!(Finger::distance(LeftMiddle, LeftIndex).unwrap() == 1);
    assert!(Finger::distance(RightIndex, RightPinky).unwrap() == 3);
    assert!(Finger::distance(LeftIndex, LeftIndex).unwrap() == 0);
    assert!(Finger::distance(LeftIndex, RightIndex).is_none());
    assert!(Finger::distance(LeftIndex, Thumb).is_none());
    assert!(Finger::distance(Thumb, Thumb).unwrap() == 0);
}

#[test]
fn roll_direction() {
    assert_eq!(LeftMiddle.roll_direction(LeftIndex), Inside);
    assert_eq!(LeftIndex.roll_direction(LeftMiddle), Outside);
    assert_eq!(LeftIndex.roll_direction(LeftIndex), SameFinger);
    assert_eq!(LeftIndex.roll_direction(RightIndex), DifferentHands);

    assert_eq!(RightMiddle.roll_direction(RightIndex), Inside);
    assert_eq!(RightIndex.roll_direction(RightMiddle), Outside);
}

#[test]
fn finger_distance_over_all_pairs() {
    for f1 in Finger::all() {
        for f2 in Finger::all() {
            let expected = if f1.hand() != f2.hand() {
                None
            } else {
                Some(f1.index().abs_diff(f2.index()))
            };
            assert_eq!(Finger::distance(f1, f2), expected);
            assert_eq!(Finger::distance(f1, f2), Finger::distance(f2, f1));
        }
        assert_eq!(Finger::distance(f1, f1), Some(0));
    }
    assert_eq!(Finger::distance(Finger::Thumb, Finger::LeftPinky), None);
    assert_eq!(Finger::distance(Finger::RightPinky, Finger::Thumb), None);
}

#[test]
fn finger_ordinals_follow_the_derived_order() {
    let mut fingers = Finger::all();
    fingers.sort();
    let ordinals: Vec<u32> = fingers.iter().map(|f| f.index()).collect();
    assert_eq!(ordinals, vec![0, 1, 2, 3, 4, 5, 6, 7, 8]);
    assert_eq!(fingers[0], Finger::Thumb);
}

#[test]
fn all_fingers_and_hands() {
    assert_eq!(
        Finger::all(),
        vec![LeftPinky, LeftRing, LeftMiddle, LeftIndex, RightIndex, RightMiddle, RightRing, RightPinky, Thumb]
    );
    assert_eq!(Hand::all(), vec![Hand::Left, Hand::Right, Hand::Thumbs]);
    for (place, finger) in Finger::all().into_iter().enumerate() {
        assert_eq!(finger.position(), place);
    }
    for (place, hand) in Hand::all().into_iter().enumerate() {
        assert_eq!(hand.position(), place);
    }
    assert_eq!(LeftRing.hand(), Hand::Left);
    assert_eq!(RightIndex.hand(), Hand::Right);
    assert_eq!(Thumb.hand(), Hand::Thumbs);
}

#[test]
fn preferred_heights() {
    // index highest, then middle, ring, pinky, and the thumb lowest
    assert_eq!(LeftIndex.prefered_height(), 4);
    assert_eq!(RightIndex.prefered_height(), 4);
    assert_eq!(LeftMiddle.prefered_height(), 3);
    assert_eq!(RightRing.prefered_height(), 2);
    assert_eq!(RightPinky.prefered_height(), 1);
    assert_eq!(Thumb.prefered_height(), 0);
    assert!(LeftIndex.prefers_being_higher(LeftMiddle));
    assert!(!LeftMiddle.prefers_being_higher(LeftIndex));
    assert!(LeftMiddle.prefers_being_higher(LeftRing));
    assert!(LeftRing.prefers_being_higher(LeftPinky));
    assert!(RightPinky.prefers_being_higher(Thumb));
    assert!(LeftIndex.prefers_being_higher(LeftRing));
    assert!(!LeftRing.prefers_being_higher(LeftIndex));
    assert!(!LeftPinky.prefers_being_higher(LeftPinky));
    assert!(!LeftIndex.prefers_being_higher(RightIndex));
}

#[test]
fn finger_of_a_key() {
    assert_eq!(Finger::from(PhysicalKey::Space), Finger::Thumb);
    assert_eq!(Finger::from(PhysicalKey::KeyT), Finger::LeftIndex);
    assert_eq!(Finger::from(PhysicalKey::IntlBackslash), Finger::LeftPinky);
    assert_eq!(PhysicalKey::Backslash.finger(), Finger::RightPinky);
    assert_eq!(PhysicalKey::KeyY.hand(), Hand::Right);
    assert_eq!(PhysicalKey::all().len(), 49);
    for key in PhysicalKey::all() {
        assert_eq!(Finger::from(key), key.finger());
        assert_eq!(key.hand(), key.finger().hand());
    }
}

#[test]
fn rows_of_keys() {
    assert_eq!(PhysicalKey::Digit7.row(), Row::Digits);
    assert_eq!(PhysicalKey::BracketLeft.row(), Row::Upper);
    assert_eq!(PhysicalKey::Quote.row(), Row::Middle);
    assert_eq!(PhysicalKey::IntlBackslash.row(), Row::Lower);
    assert_eq!(PhysicalKey::Space.row(), Row::Spacebar);
    assert_eq!(Row::distance(Row::Spacebar, Row::Digits), 4);
    assert_eq!(Row::distance(Row::Upper, Row::Lower), 2);
    assert_eq!(Row::distance(Row::Middle, Row::Middle), 0);
    assert!(Row::Spacebar < Row::Lower && Row::Lower < Row::Middle);
    assert!(Row::Middle < Row::Upper && Row::Upper < Row::Digits);
}

#[test]
fn horizontal_positions() {
    assert_eq!(U, 4);
    assert_eq!(Geometry::Ortho.key_horizontal_position(KeyQ), Some(4));
    assert_eq!(Geometry::Ortho.key_horizontal_position(KeyZ), Some(4));
    assert_eq!(Geometry::Ortho.key_horizontal_position(Backslash), Some(44));
    assert_eq!(Geometry::Ortho.key_horizontal_position(Space), None);
    assert_eq!(Geometry::Ortho.key_horizontal_position(IntlBackslash), None);
    assert_eq!(Geometry::ANSI.key_horizontal_position(Digit1), Some(4));
    assert_eq!(Geometry::ANSI.key_horizontal_position(KeyQ), Some(6));
    assert_eq!(Geometry::ANSI.key_horizontal_position(KeyA), Some(7));
    assert_eq!(Geometry::ANSI.key_horizontal_position(KeyZ), Some(9));
    assert_eq!(Geometry::ANSI.key_horizontal_position(Backslash), Some(54));
    assert_eq!(Geometry::ANSIOpti.key_horizontal_position(IntlBackslash), None);
    assert_eq!(Geometry::ISO.key_horizontal_position(Backslash), Some(51));
    assert_eq!(Geometry::ISOOpti.key_horizontal_position(IntlBackslash), Some(9));
    assert_eq!(Geometry::ISO.key_horizontal_position(Space), None);
    assert_eq!(Geometry::ISO.key_horizontal_position_ortho(Equal), Some(48));
}

#[test]
fn horizontal_distances() {
    assert_eq!(Geometry::Ortho.horizontal_distance(KeyE, KeyT), Some(8));
    assert_eq!(Geometry::Ortho.horizontal_distance(KeyT, KeyE), Some(8));
    assert_eq!(Geometry::ANSI.horizontal_distance(KeyW, KeyB), Some(15));
    assert_eq!(Geometry::ANSI.horizontal_distance(KeyQ, KeyQ), Some(0));
    assert_eq!(Geometry::ANSI.horizontal_distance(KeyA, Space), None);
    assert_eq!(Geometry::ANSI.horizontal_distance(IntlBackslash, KeyZ), None);
    assert_eq!(Geometry::ISO.horizontal_distance(IntlBackslash, KeyZ), Some(0));
}

#[test]
fn geometry_from_a_word() {
    assert_eq!(Geometry::named("iso"), Some(Geometry::ISO));
    assert_eq!(Geometry::named("iso-angle-mod"), Some(Geometry::ISOOpti));
    assert_eq!(Geometry::named("ansi"), Some(Geometry::ANSI));
    assert_eq!(Geometry::named("ansi-angle-mod"), Some(Geometry::ANSIOpti));
    assert_eq!(Geometry::named("ortho"), Some(Geometry::Ortho));
    assert_eq!(Geometry::named("ISO"), None);
    assert_eq!(Geometry::named("iso "), None);
    assert_eq!(Geometry::named(""), None);
    assert_eq!(Geometry::parse("iso"), Some(Geometry::ISO));
    assert_eq!(Geometry::parse("ISO"), Some(Geometry::ISO));
    assert_eq!(Geometry::parse("iso-angle-mod"), Some(Geometry::ISOOpti));
    assert_eq!(Geometry::parse("ansi"), Some(Geometry::ANSI));
    assert_eq!(Geometry::parse("Ansi-Angle-Mod"), Some(Geometry::ANSIOpti));
    assert_eq!(Geometry::parse("ortho"), Some(Geometry::Ortho));
    assert_eq!(Geometry::parse("ergo"), None);
    assert_eq!(Geometry::parse(""), None);
    assert_eq!("Ortho".parse::<Geometry>(), Ok(Geometry::Ortho));
    assert_eq!("qwerty".parse::<Geometry>(), Err(String::from("Invalid geometry: qwerty")));
}
