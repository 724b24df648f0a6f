//! Physical keys, with the finger and the row of each, and the layout that
//! binds symbols to them.

use crate::geometry::Row;
use crate::hands::{Finger, Hand};
use crate::kalamine::symbols::{DeadKey, ModMapping, Symbol};
use vstd::prelude::*;

verus! {

/// A layout: what each physical key produces on each of its levels, and
/// what each dead key turns the next symbol into.
///
/// Both tables are lists, read in order; where a key or a dead key stands
/// twice, the rules of resolution say which entry counts.
#[derive(Debug, Clone)]
pub struct Layout {
    pub keymap: Vec<(PhysicalKey, ModMapping)>,
    pub deadkeys: Vec<(DeadKey, Vec<(Symbol, Symbol)>)>,
}

/// The family of keyboards a layout file says it was drawn for.
#[derive(Debug, Clone, Copy, PartialEq, Eq, Structural)]
pub enum Geometry {
    Ergo,
    ISO,
    Compact,
}

/// A position on the keyboard.
#[derive(Debug, Clone, Copy, PartialEq, Eq, Hash, Structural)]
pub enum PhysicalKey {
    KeyQ,
    KeyW,
    KeyE,
    KeyR,
    KeyT,
    KeyY,
    KeyU,
    KeyI,
    KeyO,
    KeyP,
    KeyA,
    KeyS,
    KeyD,
    KeyF,
    KeyG,
    KeyH,
    KeyJ,
    KeyK,
    KeyL,
    Semicolon,
    KeyZ,
    KeyX,
    KeyC,
    KeyV,
    KeyB,
    KeyN,
    KeyM,
    Comma,
    Period,
    Slash,
    Space,
    Digit1,
    Digit2,
    Digit3,
    Digit4,
    Digit5,
    Digit6,
    Digit7,
    Digit8,
    Digit9,
    Digit0,
    Minus,
    Equal,
    BracketLeft,
    BracketRight,
    Quote,
    Backquote,
    Backslash,
    IntlBackslash,
}

impl PhysicalKey {
    pub open spec fn spec_finger(&self) -> Finger {
        match *self {
            PhysicalKey::Space => Finger::Thumb,
            PhysicalKey::Digit1
            | PhysicalKey::KeyQ
            | PhysicalKey::KeyA
            | PhysicalKey::KeyZ
            | PhysicalKey::IntlBackslash => Finger::LeftPinky,
            PhysicalKey::Digit2 | PhysicalKey::KeyW | PhysicalKey::KeyS | PhysicalKey::KeyX => Finger::LeftRing,
            PhysicalKey::Digit3 | PhysicalKey::KeyE | PhysicalKey::KeyD | PhysicalKey::KeyC => Finger::LeftMiddle,
            PhysicalKey::Digit4
            | PhysicalKey::KeyR
            | PhysicalKey::KeyF
            | PhysicalKey::KeyV
            | PhysicalKey::Digit5
            | PhysicalKey::KeyT
            | PhysicalKey::KeyG
            | PhysicalKey::KeyB => Finger::LeftIndex,
            PhysicalKey::Digit6
            | PhysicalKey::KeyY
            | PhysicalKey::KeyH
            | PhysicalKey::KeyN
            | PhysicalKey::Digit7
            | PhysicalKey::KeyU
            | PhysicalKey::KeyJ
            | PhysicalKey::KeyM => Finger::RightIndex,
            PhysicalKey::Digit8 | PhysicalKey::KeyI | PhysicalKey::KeyK | PhysicalKey::Comma => Finger::RightMiddle,
            PhysicalKey::Digit9 | PhysicalKey::KeyO | PhysicalKey::KeyL | PhysicalKey::Period => Finger::RightRing,
            PhysicalKey::Digit0
            | PhysicalKey::KeyP
            | PhysicalKey::Semicolon
            | PhysicalKey::Slash
            | PhysicalKey::Minus
            | PhysicalKey::Equal
            | PhysicalKey::BracketLeft
            | PhysicalKey::BracketRight
            | PhysicalKey::Quote
            | PhysicalKey::Backquote
            | PhysicalKey::Backslash => Finger::RightPinky,
        }
    }

    /// The finger that presses the key.
    #[verifier::when_used_as_spec(spec_finger)]
    pub fn finger(&self) -> (f: Finger)
        ensures
            f == self.spec_finger(),
    {
        match self {
            PhysicalKey::Space => Finger::Thumb,
            PhysicalKey::Digit1
            | PhysicalKey::KeyQ
            | PhysicalKey::KeyA
            | PhysicalKey::KeyZ
            | PhysicalKey::IntlBackslash => Finger::LeftPinky,
            PhysicalKey::Digit2 | PhysicalKey::KeyW | PhysicalKey::KeyS | PhysicalKey::KeyX => Finger::LeftRing,
            PhysicalKey::Digit3 | PhysicalKey::KeyE | PhysicalKey::KeyD | PhysicalKey::KeyC => Finger::LeftMiddle,
            PhysicalKey::Digit4
            | PhysicalKey::KeyR
            | PhysicalKey::KeyF
            | PhysicalKey::KeyV
            | PhysicalKey::Digit5
            | PhysicalKey::KeyT
            | PhysicalKey::KeyG
            | PhysicalKey::KeyB => Finger::LeftIndex,
            PhysicalKey::Digit6
            | PhysicalKey::KeyY
            | PhysicalKey::KeyH
            | PhysicalKey::KeyN
            | PhysicalKey::Digit7
            | PhysicalKey::KeyU
            | PhysicalKey::KeyJ
            | PhysicalKey::KeyM => Finger::RightIndex,
            PhysicalKey::Digit8 | PhysicalKey::KeyI | PhysicalKey::KeyK | PhysicalKey::Comma => Finger::RightMiddle,
            PhysicalKey::Digit9 | PhysicalKey::KeyO | PhysicalKey::KeyL | PhysicalKey::Period => Finger::RightRing,
            PhysicalKey::Digit0
            | PhysicalKey::KeyP
            | PhysicalKey::Semicolon
            | PhysicalKey::Slash
            | PhysicalKey::Minus
            | PhysicalKey::Equal
            | PhysicalKey::BracketLeft
            | PhysicalKey::BracketRight
            | PhysicalKey::Quote
            | PhysicalKey::Backquote
            | PhysicalKey::Backslash => Finger::RightPinky,
        }
    }

    pub open spec fn spec_row(&self) -> Row {
        match *self {
            PhysicalKey::Backquote
            | PhysicalKey::Digit1
            | PhysicalKey::Digit2
            | PhysicalKey::Digit3
            | PhysicalKey::Digit4
            | PhysicalKey::Digit5
            | PhysicalKey::Digit6
            | PhysicalKey::Digit7
            | PhysicalKey::Digit8
            | PhysicalKey::Digit9
            | PhysicalKey::Digit0
            | PhysicalKey::Minus
            | PhysicalKey::Equal => Row::Digits,
            PhysicalKey::KeyQ
            | PhysicalKey::KeyW
            | PhysicalKey::KeyE
            | PhysicalKey::KeyR
            | PhysicalKey::KeyT
            | PhysicalKey::KeyY
            | PhysicalKey::KeyU
            | PhysicalKey::KeyI
            | PhysicalKey::KeyO
            | PhysicalKey::KeyP
            | PhysicalKey::BracketLeft
            | PhysicalKey::BracketRight
            | PhysicalKey::Backslash => Row::Upper,
            PhysicalKey::KeyA
            | PhysicalKey::KeyS
            | PhysicalKey::KeyD
            | PhysicalKey::KeyF
            | PhysicalKey::KeyG
            | PhysicalKey::KeyH
            | PhysicalKey::KeyJ
            | PhysicalKey::KeyK
            | PhysicalKey::KeyL
            | PhysicalKey::Semicolon
            | PhysicalKey::Quote => Row::Middle,
            PhysicalKey::IntlBackslash
            | PhysicalKey::KeyZ
            | PhysicalKey::KeyX
            | PhysicalKey::KeyC
            | PhysicalKey::KeyV
            | PhysicalKey::KeyB
            | PhysicalKey::KeyN
            | PhysicalKey::KeyM
            | PhysicalKey::Comma
            | PhysicalKey::Period
            | PhysicalKey::Slash => Row::Lower,
            PhysicalKey::Space => Row::Spacebar,
        }
    }

    /// The row the key lies on.
    #[verifier::when_used_as_spec(spec_row)]
    pub fn row(&self) -> (r: Row)
        ensures
            r == self.spec_row(),
    {
        match self {
            PhysicalKey::Backquote
            | PhysicalKey::Digit1
            | PhysicalKey::Digit2
            | PhysicalKey::Digit3
            | PhysicalKey::Digit4
            | PhysicalKey::Digit5
            | PhysicalKey::Digit6
            | PhysicalKey::Digit7
            | PhysicalKey::Digit8
            | PhysicalKey::Digit9
            | PhysicalKey::Digit0
            | PhysicalKey::Minus
            | PhysicalKey::Equal => Row::Digits,
            PhysicalKey::KeyQ
            | PhysicalKey::KeyW
            | PhysicalKey::KeyE
            | PhysicalKey::KeyR
            | PhysicalKey::KeyT
            | PhysicalKey::KeyY
            | PhysicalKey::KeyU
            | PhysicalKey::KeyI
            | PhysicalKey::KeyO
            | PhysicalKey::KeyP
            | PhysicalKey::BracketLeft
            | PhysicalKey::BracketRight
            | PhysicalKey::Backslash => Row::Upper,
            PhysicalKey::KeyA
            | PhysicalKey::KeyS
            | PhysicalKey::KeyD
            | PhysicalKey::KeyF
            | PhysicalKey::KeyG
            | PhysicalKey::KeyH
            | PhysicalKey::KeyJ
            | PhysicalKey::KeyK
            | PhysicalKey::KeyL
            | PhysicalKey::Semicolon
            | PhysicalKey::Quote => Row::Middle,
            PhysicalKey::IntlBackslash
            | PhysicalKey::KeyZ
            | PhysicalKey::KeyX
            | PhysicalKey::KeyC
            | PhysicalKey::KeyV
            | PhysicalKey::KeyB
            | PhysicalKey::KeyN
            | PhysicalKey::KeyM
            | PhysicalKey::Comma
            | PhysicalKey::Period
            | PhysicalKey::Slash => Row::Lower,
            PhysicalKey::Space => Row::Spacebar,
        }
    }

    pub open spec fn spec_hand(&self) -> Hand {
        self.spec_finger().spec_hand()
    }

    /// The hand that presses the key.
    #[verifier::when_used_as_spec(spec_hand)]
    pub fn hand(&self) -> (h: Hand)
        ensures
            h == self.spec_hand(),
    {
        self.finger().hand()
    }
}

impl PhysicalKey {
    /// Every key once, in the order of their declaration.
    pub open spec fn spec_all() -> Seq<PhysicalKey> {
        seq![
            PhysicalKey::KeyQ,
            PhysicalKey::KeyW,
            PhysicalKey::KeyE,
            PhysicalKey::KeyR,
            PhysicalKey::KeyT,
            PhysicalKey::KeyY,
            PhysicalKey::KeyU,
            PhysicalKey::KeyI,
            PhysicalKey::KeyO,
            PhysicalKey::KeyP,
            PhysicalKey::KeyA,
            PhysicalKey::KeyS,
            PhysicalKey::KeyD,
            PhysicalKey::KeyF,
            PhysicalKey::KeyG,
            PhysicalKey::KeyH,
            PhysicalKey::KeyJ,
            PhysicalKey::KeyK,
            PhysicalKey::KeyL,
            PhysicalKey::Semicolon,
            PhysicalKey::KeyZ,
            PhysicalKey::KeyX,
            PhysicalKey::KeyC,
            PhysicalKey::KeyV,
            PhysicalKey::KeyB,
            PhysicalKey::KeyN,
            PhysicalKey::KeyM,
            PhysicalKey::Comma,
            PhysicalKey::Period,
            PhysicalKey::Slash,
            PhysicalKey::Space,
            PhysicalKey::Digit1,
            PhysicalKey::Digit2,
            PhysicalKey::Digit3,
            PhysicalKey::Digit4,
            PhysicalKey::Digit5,
            PhysicalKey::Digit6,
            PhysicalKey::Digit7,
            PhysicalKey::Digit8,
            PhysicalKey::Digit9,
            PhysicalKey::Digit0,
            PhysicalKey::Minus,
            PhysicalKey::Equal,
            PhysicalKey::BracketLeft,
            PhysicalKey::BracketRight,
            PhysicalKey::Quote,
            PhysicalKey::Backquote,
            PhysicalKey::Backslash,
            PhysicalKey::IntlBackslash,
        ]
    }

    /// Every key once.
    pub fn all() -> (v: Vec<PhysicalKey>)
        ensures
            v@ == PhysicalKey::spec_all(),
    {
        let v = vec![
            PhysicalKey::KeyQ,
            PhysicalKey::KeyW,
            PhysicalKey::KeyE,
            PhysicalKey::KeyR,
            PhysicalKey::KeyT,
            PhysicalKey::KeyY,
            PhysicalKey::KeyU,
            PhysicalKey::KeyI,
            PhysicalKey::KeyO,
            PhysicalKey::KeyP,
            PhysicalKey::KeyA,
            PhysicalKey::KeyS,
            PhysicalKey::KeyD,
            PhysicalKey::KeyF,
            PhysicalKey::KeyG,
            PhysicalKey::KeyH,
            PhysicalKey::KeyJ,
            PhysicalKey::KeyK,
            PhysicalKey::KeyL,
            PhysicalKey::Semicolon,
            PhysicalKey::KeyZ,
            PhysicalKey::KeyX,
            PhysicalKey::KeyC,
            PhysicalKey::KeyV,
            PhysicalKey::KeyB,
            PhysicalKey::KeyN,
            PhysicalKey::KeyM,
            PhysicalKey::Comma,
            PhysicalKey::Period,
            PhysicalKey::Slash,
            PhysicalKey::Space,
            PhysicalKey::Digit1,
            PhysicalKey::Digit2,
            PhysicalKey::Digit3,
            PhysicalKey::Digit4,
            PhysicalKey::Digit5,
            PhysicalKey::Digit6,
            PhysicalKey::Digit7,
            PhysicalKey::Digit8,
            PhysicalKey::Digit9,
            PhysicalKey::Digit0,
            PhysicalKey::Minus,
            PhysicalKey::Equal,
            PhysicalKey::BracketLeft,
            PhysicalKey::BracketRight,
            PhysicalKey::Quote,
            PhysicalKey::Backquote,
            PhysicalKey::Backslash,
            PhysicalKey::IntlBackslash,
        ];
        assert(v@ =~= PhysicalKey::spec_all());
        v
    }
}

impl PhysicalKey {
    /// The name of the key, as a layout file writes it.
    pub open spec fn spec_name(&self) -> Seq<char> {
        match *self {
            PhysicalKey::KeyQ => "KeyQ"@,
            PhysicalKey::KeyW => "KeyW"@,
            PhysicalKey::KeyE => "KeyE"@,
            PhysicalKey::KeyR => "KeyR"@,
            PhysicalKey::KeyT => "KeyT"@,
            PhysicalKey::KeyY => "KeyY"@,
            PhysicalKey::KeyU => "KeyU"@,
            PhysicalKey::KeyI => "KeyI"@,
            PhysicalKey::KeyO => "KeyO"@,
            PhysicalKey::KeyP => "KeyP"@,
            PhysicalKey::KeyA => "KeyA"@,
            PhysicalKey::KeyS => "KeyS"@,
            PhysicalKey::KeyD => "KeyD"@,
            PhysicalKey::KeyF => "KeyF"@,
            PhysicalKey::KeyG => "KeyG"@,
            PhysicalKey::KeyH => "KeyH"@,
            PhysicalKey::KeyJ => "KeyJ"@,
            PhysicalKey::KeyK => "KeyK"@,
            PhysicalKey::KeyL => "KeyL"@,
            PhysicalKey::Semicolon => "Semicolon"@,
            PhysicalKey::KeyZ => "KeyZ"@,
            PhysicalKey::KeyX => "KeyX"@,
            PhysicalKey::KeyC => "KeyC"@,
            PhysicalKey::KeyV => "KeyV"@,
            PhysicalKey::KeyB => "KeyB"@,
            PhysicalKey::KeyN => "KeyN"@,
            PhysicalKey::KeyM => "KeyM"@,
            PhysicalKey::Comma => "Comma"@,
            PhysicalKey::Period => "Period"@,
            PhysicalKey::Slash => "Slash"@,
            PhysicalKey::Space => "Space"@,
            PhysicalKey::Digit1 => "Digit1"@,
            PhysicalKey::Digit2 => "Digit2"@,
            PhysicalKey::Digit3 => "Digit3"@,
            PhysicalKey::Digit4 => "Digit4"@,
            PhysicalKey::Digit5 => "Digit5"@,
            PhysicalKey::Digit6 => "Digit6"@,
            PhysicalKey::Digit7 => "Digit7"@,
            PhysicalKey::Digit8 => "Digit8"@,
            PhysicalKey::Digit9 => "Digit9"@,
            PhysicalKey::Digit0 => "Digit0"@,
            PhysicalKey::Minus => "Minus"@,
            PhysicalKey::Equal => "Equal"@,
            PhysicalKey::BracketLeft => "BracketLeft"@,
            PhysicalKey::BracketRight => "BracketRight"@,
            PhysicalKey::Quote => "Quote"@,
            PhysicalKey::Backquote => "Backquote"@,
            PhysicalKey::Backslash => "Backslash"@,
            PhysicalKey::IntlBackslash => "IntlBackslash"@,
        }
    }

    /// The name of the key.
    pub fn name(&self) -> (s: &'static str)
        ensures
            s@ == self.spec_name(),
    {
        match self {
            PhysicalKey::KeyQ => "KeyQ",
            PhysicalKey::KeyW => "KeyW",
            PhysicalKey::KeyE => "KeyE",
            PhysicalKey::KeyR => "KeyR",
            PhysicalKey::KeyT => "KeyT",
            PhysicalKey::KeyY => "KeyY",
            PhysicalKey::KeyU => "KeyU",
            PhysicalKey::KeyI => "KeyI",
            PhysicalKey::KeyO => "KeyO",
            PhysicalKey::KeyP => "KeyP",
            PhysicalKey::KeyA => "KeyA",
            PhysicalKey::KeyS => "KeyS",
            PhysicalKey::KeyD => "KeyD",
            PhysicalKey::KeyF => "KeyF",
            PhysicalKey::KeyG => "KeyG",
            PhysicalKey::KeyH => "KeyH",
            PhysicalKey::KeyJ => "KeyJ",
            PhysicalKey::KeyK => "KeyK",
            PhysicalKey::KeyL => "KeyL",
            PhysicalKey::Semicolon => "Semicolon",
            PhysicalKey::KeyZ => "KeyZ",
            PhysicalKey::KeyX => "KeyX",
            PhysicalKey::KeyC => "KeyC",
            PhysicalKey::KeyV => "KeyV",
            PhysicalKey::KeyB => "KeyB",
            PhysicalKey::KeyN => "KeyN",
            PhysicalKey::KeyM => "KeyM",
            PhysicalKey::Comma => "Comma",
            PhysicalKey::Period => "Period",
            PhysicalKey::Slash => "Slash",
            PhysicalKey::Space => "Space",
            PhysicalKey::Digit1 => "Digit1",
            PhysicalKey::Digit2 => "Digit2",
            PhysicalKey::Digit3 => "Digit3",
            PhysicalKey::Digit4 => "Digit4",
            PhysicalKey::Digit5 => "Digit5",
            PhysicalKey::Digit6 => "Digit6",
            PhysicalKey::Digit7 => "Digit7",
            PhysicalKey::Digit8 => "Digit8",
            PhysicalKey::Digit9 => "Digit9",
            PhysicalKey::Digit0 => "Digit0",
            PhysicalKey::Minus => "Minus",
            PhysicalKey::Equal => "Equal",
            PhysicalKey::BracketLeft => "BracketLeft",
            PhysicalKey::BracketRight => "BracketRight",
            PhysicalKey::Quote => "Quote",
            PhysicalKey::Backquote => "Backquote",
            PhysicalKey::Backslash => "Backslash",
            PhysicalKey::IntlBackslash => "IntlBackslash",
        }
    }

    /// The key that a name stands for: the first key of
    /// [`PhysicalKey::spec_all`] that has the name.
    pub open spec fn spec_from_name(s: Seq<char>) -> Option<PhysicalKey> {
        Self::spec_named_among(s, PhysicalKey::spec_all())
    }

    /// The first of `keys` that has the name `s`.
    pub open spec fn spec_named_among(s: Seq<char>, keys: Seq<PhysicalKey>) -> Option<PhysicalKey>
        decreases keys.len(),
    {
        if keys.len() == 0 {
            None
        } else {
            match Self::spec_named_among(s, keys.drop_last()) {
                Some(key) => Some(key),
                None => if keys.last().spec_name() == s {
                    Some(keys.last())
                } else {
                    None
                },
            }
        }
    }

    /// Reads the name of a key.
    pub fn from_name(s: &str) -> (res: Option<PhysicalKey>)
        ensures
            res == Self::spec_from_name(s@),
            res matches Some(key) ==> key.spec_name() == s@,
    {
        let keys = PhysicalKey::all();
        let wanted = s.to_owned();
        let mut i: usize = 0;
        while i < keys.len()
            invariant
                i <= keys@.len(),
                keys@ == PhysicalKey::spec_all(),
                wanted@ == s@,
                Self::spec_named_among(s@, keys@.take(i as int)) is None,
            decreases keys@.len() - i,
        {
            assert(keys@.take(i + 1).drop_last() =~= keys@.take(i as int));
            let key = keys[i];
            if key.name().to_owned() == wanted {
                proof {
                    Self::lemma_named_among(s@, keys@, i + 1);
                }
                return Some(key);
            }
            i += 1;
        }
        assert(keys@.take(i as int) =~= keys@);
        None
    }

    /// A key found among the first keys of a list is the key found in the
    /// list.
    pub proof fn lemma_named_among(s: Seq<char>, keys: Seq<PhysicalKey>, k: int)
        requires
            0 <= k <= keys.len(),
            Self::spec_named_among(s, keys.take(k)) is Some,
        ensures
            Self::spec_named_among(s, keys) == Self::spec_named_among(s, keys.take(k)),
        decreases keys.len(),
    {
        if k == keys.len() {
            assert(keys.take(k) =~= keys);
        } else {
            assert(keys.drop_last().take(k) =~= keys.take(k));
            Self::lemma_named_among(s, keys.drop_last(), k);
        }
    }
}

} // verus!
