use klayan::geometry::Geometry::{ANSI, Ortho};
use klayan::kalamine::PhysicalKey::{
    KeyA, KeyB, KeyC, KeyD, KeyE, KeyF, KeyG, KeyH, KeyJ, KeyK, KeyL, KeyQ, KeyR, KeyS, KeyT, KeyV,
    KeyW, KeyX, KeyY, KeyZ, Quote, Semicolon, Space,
};
use klayan::stats::bigrams::{is_in_roll, is_lsb, is_out_roll, is_scissors};
use klayan::stats::trigrams::{is_bad_finger, is_redirect, is_redirect_bad, is_sfs, is_sks};
use klayan::hands::Finger;

#[test]
fn in_roll() {
    assert!(is_in_roll(KeyD, KeyF));
    assert!(!is_in_roll(KeyF, KeyD));
    assert!(is_in_roll(KeyK, KeyJ));
    assert!(!is_in_roll(KeyJ, KeyK));
    assert!(!is_in_roll(KeyA, Space));
}

#[test]
fn out_roll() {
    assert!(!is_out_roll(KeyD, KeyF));
    assert!(is_out_roll(KeyF, KeyD));
    assert!(!is_out_roll(KeyK, KeyJ));
    assert!(is_out_roll(KeyJ, KeyK));
    assert!(!is_out_roll(KeyB, Space));
}

#[test]
fn lsb() {
    assert!(!is_lsb(KeyQ, KeyT, Ortho));
    assert!(!is_lsb(KeyW, KeyT, Ortho));
    assert!(is_lsb(KeyE, KeyT, Ortho)); // Middle-Index LSB
    assert!(!is_lsb(KeyR, KeyT, Ortho));
    assert!(!is_lsb(KeyT, KeyT, Ortho));
    assert!(!is_lsb(KeyY, KeyT, Ortho));

    assert!(!is_lsb(KeyQ, KeyB, ANSI));
    assert!(is_lsb(KeyW, KeyB, ANSI)); // LSB due to stagger
    assert!(is_lsb(KeyE, KeyB, ANSI));
    assert!(!is_lsb(KeyR, KeyB, ANSI));
    assert!(!is_lsb(KeyT, KeyB, ANSI));

    assert!(!is_lsb(KeyW, KeyG, ANSI)); // stagger not big enough

    assert!(!is_lsb(KeyH, Quote, ANSI));
    assert!(!is_lsb(KeyJ, Quote, ANSI));
    assert!(!is_lsb(KeyK, Quote, ANSI));
    assert!(is_lsb(KeyL, Quote, ANSI)); // Ring-Pinky LSB
    assert!(!is_lsb(Semicolon, Quote, ANSI));

    assert!(!is_lsb(KeyA, Space, Ortho));
}

#[test]
fn scissors() {
    assert!(is_scissors(KeyQ, KeyS, ANSI));
    assert!(is_scissors(KeyQ, KeyD, ANSI));
    assert!(!is_scissors(KeyQ, KeyF, ANSI));
    assert!(!is_scissors(KeyQ, KeyG, ANSI));
    assert!(is_scissors(KeyQ, KeyX, ANSI));
    assert!(is_scissors(KeyQ, KeyC, ANSI));
    assert!(!is_scissors(KeyQ, KeyV, ANSI));
    assert!(!is_scissors(KeyQ, KeyB, ANSI));

    // the index finger on the lower key, a finger that likes it less above
    assert!(!is_scissors(KeyV, KeyA, ANSI));
    assert!(is_scissors(KeyV, KeyS, ANSI));
    assert!(is_scissors(KeyV, KeyD, ANSI));
    assert!(!is_scissors(KeyV, KeyQ, ANSI));
    assert!(!is_scissors(KeyV, KeyW, ANSI));
    assert!(is_scissors(KeyV, KeyE, ANSI));
    assert!(!is_scissors(KeyV, KeyB, ANSI));

    // 2 rows of difference with no index is almost always scissors
    assert!(is_scissors(KeyZ, KeyW, ANSI));
    assert!(is_scissors(KeyX, KeyE, ANSI));
    assert!(is_scissors(KeyE, KeyV, ANSI));
    assert!(is_scissors(KeyC, KeyW, ANSI));
    assert!(is_scissors(KeyX, KeyQ, ANSI));

    // the index finger on the upper key is where it likes to be
    assert!(!is_scissors(KeyC, KeyR, ANSI));
    assert!(!is_scissors(KeyS, KeyR, ANSI));
    assert!(!is_scissors(KeyS, KeyE, ANSI));
    assert!(!is_scissors(KeyS, KeyT, ANSI));
}

#[test]
fn scissors_do_not_depend_on_the_order() {
    let keys = klayan::kalamine::PhysicalKey::all();
    for &k1 in keys.iter() {
        for &k2 in keys.iter() {
            assert_eq!(is_scissors(k1, k2, ANSI), is_scissors(k2, k1, ANSI));
            assert_eq!(is_lsb(k1, k2, Ortho), is_lsb(k2, k1, Ortho));
            assert_eq!(is_in_roll(k1, k2), is_out_roll(k2, k1));
        }
    }
    assert!(!is_scissors(KeyA, Space, ANSI));
    assert!(!is_scissors(KeyF, KeyJ, ANSI));
    assert!(!is_scissors(KeyA, KeyS, ANSI));
}

#[test]
fn redirect() {
    assert!(is_redirect(KeyJ, KeyL, KeyK));
    assert!(is_redirect(KeyK, KeyL, KeyJ));
    assert!(!is_redirect(KeyJ, KeyK, KeyL));
    assert!(!is_redirect(KeyK, KeyH, KeyJ)); // same finger
    assert!(!is_redirect(KeyL, KeyG, KeyK)); // different hands
    assert!(!is_redirect(KeyL, Space, Semicolon)); // space
}

#[test]
fn bad_redirect() {
    assert!(!is_redirect_bad(KeyJ, KeyL, KeyK));
    assert!(is_redirect_bad(KeyK, Semicolon, KeyL));
}

#[test]
fn a_bad_redirect_is_a_redirect() {
    assert!(!is_redirect_bad(KeyK, KeyL, Semicolon));
    assert!(is_redirect_bad(KeyA, KeyD, KeyS));
    assert!(!is_redirect_bad(KeyA, KeyF, KeyS));
    assert!(is_bad_finger(Finger::LeftPinky));
    assert!(is_bad_finger(Finger::RightMiddle));
    assert!(!is_bad_finger(Finger::RightIndex));
    assert!(!is_bad_finger(Finger::Thumb));
}

#[test]
fn skips() {
    assert!(is_sks(KeyA, KeyF, KeyA));
    assert!(!is_sks(KeyA, KeyF, KeyQ));
    assert!(is_sfs(KeyA, KeyF, KeyQ));
    assert!(is_sfs(KeyR, KeyY, KeyB));
    assert!(!is_sfs(KeyA, KeyF, KeyS));
}
