//! The physical shape of the keyboard: rows, and where each key stands
//! horizontally on each kind of board.

use crate::kalamine::PhysicalKey;
use vstd::prelude::*;
use vstd::string::StringExecFns;

verus! {

/// Keyboard geometry. The `Opti` variants are the boards typed with the
/// angle mod.
#[derive(Debug, Clone, Copy, PartialEq, Eq, Structural)]
pub enum Geometry {
    ISO,
    ISOOpti,
    ANSI,
    ANSIOpti,
    Ortho,
}

/// The width of a key, in the unit of horizontal positions. A key is four
/// units wide, so that the quarter-key staggers of a staggered board are
/// whole numbers.
pub const U: u32 = 4;

/// The row of a key, from the space bar up to the digits.
#[derive(Debug, Clone, Copy, PartialOrd, Ord, PartialEq, Eq, Hash, Structural)]
pub enum Row {
    Spacebar,
    Lower,
    Middle,
    Upper,
    Digits,
}

impl Row {
    /// The ordinal of the row: 0 for the space bar, 4 for the digits.
    pub open spec fn spec_index(self) -> u32 {
        match self {
            Row::Spacebar => 0,
            Row::Lower => 1,
            Row::Middle => 2,
            Row::Upper => 3,
            Row::Digits => 4,
        }
    }

    #[verifier::when_used_as_spec(spec_index)]
    pub fn index(self) -> (i: u32)
        ensures
            i == self.spec_index(),
    {
        match self {
            Row::Spacebar => 0,
            Row::Lower => 1,
            Row::Middle => 2,
            Row::Upper => 3,
            Row::Digits => 4,
        }
    }

    /// The number of rows between two rows.
    pub open spec fn spec_distance(r1: Row, r2: Row) -> u32 {
        vstd::math::abs(r1.spec_index() - r2.spec_index()) as u32
    }

    #[verifier::when_used_as_spec(spec_distance)]
    pub fn distance(r1: Row, r2: Row) -> (d: u32)
        ensures
            d == Row::spec_distance(r1, r2),
            d <= 4,
    {
        let i1: u32 = r1.index();
        let i2: u32 = r2.index();
        if i1 >= i2 {
            i1 - i2
        } else {
            i2 - i1
        }
    }
}

/// The left edge of a key on a board whose rows are not staggered, or
/// `None` for a key that has no column there.
pub open spec fn spec_ortho_position(key: PhysicalKey) -> Option<u32> {
    match key {
        PhysicalKey::Backquote => Some(0),
        PhysicalKey::Digit1 | PhysicalKey::KeyQ | PhysicalKey::KeyA | PhysicalKey::KeyZ => Some(4),
        PhysicalKey::Digit2 | PhysicalKey::KeyW | PhysicalKey::KeyS | PhysicalKey::KeyX => Some(8),
        PhysicalKey::Digit3 | PhysicalKey::KeyE | PhysicalKey::KeyD | PhysicalKey::KeyC => Some(12),
        PhysicalKey::Digit4 | PhysicalKey::KeyR | PhysicalKey::KeyF | PhysicalKey::KeyV => Some(16),
        PhysicalKey::Digit5 | PhysicalKey::KeyT | PhysicalKey::KeyG | PhysicalKey::KeyB => Some(20),
        PhysicalKey::Digit6 | PhysicalKey::KeyY | PhysicalKey::KeyH | PhysicalKey::KeyN => Some(24),
        PhysicalKey::Digit7 | PhysicalKey::KeyU | PhysicalKey::KeyJ | PhysicalKey::KeyM => Some(28),
        PhysicalKey::Digit8 | PhysicalKey::KeyI | PhysicalKey::KeyK | PhysicalKey::Comma => Some(32),
        PhysicalKey::Digit9 | PhysicalKey::KeyO | PhysicalKey::KeyL | PhysicalKey::Period => Some(36),
        PhysicalKey::Digit0 | PhysicalKey::KeyP | PhysicalKey::Semicolon | PhysicalKey::Slash => Some(40),
        PhysicalKey::Minus | PhysicalKey::BracketLeft | PhysicalKey::Quote | PhysicalKey::Backslash => Some(44),
        PhysicalKey::Equal | PhysicalKey::BracketRight => Some(48),
        PhysicalKey::Space | PhysicalKey::IntlBackslash => None,
    }
}

/// How far a row of a staggered board is shifted to the right of the
/// digits row: half a key for the upper row, three quarters for the home
/// row, a key and a quarter for the lower row.
pub open spec fn spec_row_stagger(row: Row) -> u32 {
    match row {
        Row::Upper => 2,
        Row::Middle => 3,
        Row::Lower => 5,
        Row::Digits | Row::Spacebar => 0,
    }
}

impl Geometry {
    /// Whether the rows of the board are shifted against each other.
    pub open spec fn is_staggered(self) -> bool {
        self != Geometry::Ortho
    }

    /// Whether the board has the ISO shape, with a key left of `KeyZ`.
    pub open spec fn is_iso(self) -> bool {
        self == Geometry::ISO || self == Geometry::ISOOpti
    }

    /// The left edge of a key on this board, or `None` where the key has no
    /// place on it.
    pub open spec fn spec_key_horizontal_position(&self, key: PhysicalKey) -> Option<u32> {
        if !self.is_staggered() {
            spec_ortho_position(key)
        } else if key == PhysicalKey::Backslash {
            if self.is_iso() {
                Some(51)
            } else {
                Some(54)
            }
        } else if key == PhysicalKey::IntlBackslash {
            if self.is_iso() {
                Some(9)
            } else {
                None
            }
        } else {
            match spec_ortho_position(key) {
                Some(p) => Some((p + spec_row_stagger(key.spec_row())) as u32),
                None => None,
            }
        }
    }

    /// The horizontal distance between two keys, or `None` when one of
    /// them has no place on this board.
    pub open spec fn spec_horizontal_distance(&self, key1: PhysicalKey, key2: PhysicalKey) -> Option<u32> {
        match (self.spec_key_horizontal_position(key1), self.spec_key_horizontal_position(key2)) {
            (Some(first), Some(second)) => Some(vstd::math::abs(first - second) as u32),
            _ => None,
        }
    }

    #[verifier::when_used_as_spec(spec_horizontal_distance)]
    pub fn horizontal_distance(&self, key1: PhysicalKey, key2: PhysicalKey) -> (d: Option<u32>)
        ensures
            d == self.spec_horizontal_distance(key1, key2),
    {
        let offset1: u32 = match self.key_horizontal_position(key1) {
            Some(p) => p,
            None => return None,
        };
        let offset2: u32 = match self.key_horizontal_position(key2) {
            Some(p) => p,
            None => return None,
        };
        if offset1 >= offset2 {
            Some(offset1 - offset2)
        } else {
            Some(offset2 - offset1)
        }
    }

    #[verifier::when_used_as_spec(spec_key_horizontal_position)]
    pub fn key_horizontal_position(&self, key: PhysicalKey) -> (p: Option<u32>)
        ensures
            p == self.spec_key_horizontal_position(key),
            p matches Some(x) ==> x <= 54,
    {
        let tab: u32 = U + U / 2;
        let caps: u32 = U + 3 * U / 4;
        let shift: u32 = 2 * U + U / 4;
        match self {
            Geometry::Ortho => self.key_horizontal_position_ortho(key),
            Geometry::ISO | Geometry::ISOOpti => match key {
                PhysicalKey::Backslash => Some(caps + 11 * U),
                PhysicalKey::IntlBackslash => Some(shift),
                _ => Self::staggered_position(self.key_horizontal_position_ortho(key), key.row()),
            },
            Geometry::ANSI | Geometry::ANSIOpti => match key {
                PhysicalKey::Backslash => Some(tab + 12 * U),
                PhysicalKey::IntlBackslash => None,
                _ => Self::staggered_position(self.key_horizontal_position_ortho(key), key.row()),
            },
        }
    }

    /// Shifts the column of a key by the stagger of its row.
    fn staggered_position(ortho: Option<u32>, row: Row) -> (p: Option<u32>)
        requires
            ortho matches Some(x) ==> x <= 48,
        ensures
            p == match ortho {
                Some(x) => Some((x + spec_row_stagger(row)) as u32),
                None => None,
            },
    {
        let tab: u32 = U + U / 2;
        let caps: u32 = U + 3 * U / 4;
        let shift: u32 = 2 * U + U / 4;
        match ortho {
            None => None,
            Some(x) => Some(
                match row {
                    Row::Upper => x + tab - U,
                    Row::Middle => x + caps - U,
                    Row::Lower => x + shift - U,
                    _ => x,
                },
            ),
        }
    }

    pub fn key_horizontal_position_ortho(&self, key: PhysicalKey) -> (p: Option<u32>)
        ensures
            p == spec_ortho_position(key),
            p matches Some(x) ==> x <= 48,
    {
        match key {
            PhysicalKey::Backquote => Some(0),
            PhysicalKey::Digit1 | PhysicalKey::KeyQ | PhysicalKey::KeyA | PhysicalKey::KeyZ => Some(U),
            PhysicalKey::Digit2 | PhysicalKey::KeyW | PhysicalKey::KeyS | PhysicalKey::KeyX => Some(2 * U),
            PhysicalKey::Digit3 | PhysicalKey::KeyE | PhysicalKey::KeyD | PhysicalKey::KeyC => Some(3 * U),
            PhysicalKey::Digit4 | PhysicalKey::KeyR | PhysicalKey::KeyF | PhysicalKey::KeyV => Some(4 * U),
            PhysicalKey::Digit5 | PhysicalKey::KeyT | PhysicalKey::KeyG | PhysicalKey::KeyB => Some(5 * U),
            PhysicalKey::Digit6 | PhysicalKey::KeyY | PhysicalKey::KeyH | PhysicalKey::KeyN => Some(6 * U),
            PhysicalKey::Digit7 | PhysicalKey::KeyU | PhysicalKey::KeyJ | PhysicalKey::KeyM => Some(7 * U),
            PhysicalKey::Digit8 | PhysicalKey::KeyI | PhysicalKey::KeyK | PhysicalKey::Comma => Some(8 * U),
            PhysicalKey::Digit9 | PhysicalKey::KeyO | PhysicalKey::KeyL | PhysicalKey::Period => Some(9 * U),
            PhysicalKey::Digit0 | PhysicalKey::KeyP | PhysicalKey::Semicolon | PhysicalKey::Slash => Some(
                10 * U,
            ),
            PhysicalKey::Minus | PhysicalKey::BracketLeft | PhysicalKey::Quote | PhysicalKey::Backslash => Some(
                11 * U,
            ),
            PhysicalKey::Equal | PhysicalKey::BracketRight => Some(12 * U),
            PhysicalKey::Space | PhysicalKey::IntlBackslash => None,
        }
    }
}

/// The horizontal distance between two keys does not depend on their
/// order, is zero from a placed key to itself, and exists exactly when both
/// keys have a place on the board.
pub proof fn lemma_horizontal_distance(g: Geometry, key1: PhysicalKey, key2: PhysicalKey)
    ensures
        g.spec_horizontal_distance(key1, key2) == g.spec_horizontal_distance(key2, key1),
        g.spec_horizontal_distance(key1, key2) is Some <==> g.spec_key_horizontal_position(key1) is Some
            && g.spec_key_horizontal_position(key2) is Some,
        g.spec_key_horizontal_position(key1) is Some ==> g.spec_horizontal_distance(key1, key1) == Some(
            0u32,
        ),
        g.spec_key_horizontal_position(PhysicalKey::Space) is None,
{
}

/// The string in lower case, as `str::to_lowercase` gives it.
pub uninterp spec fn lowercase_of(s: Seq<char>) -> Seq<char>;

/// Calls `str::to_lowercase`. The contract only names the result.
#[verifier::external_body]
fn to_lowercase(s: &str) -> (res: String)
    ensures
        res@ == lowercase_of(s@),
{
    s.to_lowercase()
}

impl Geometry {
    /// The board that a word in lower case names.
    pub open spec fn spec_named(word: Seq<char>) -> Option<Geometry> {
        if word == "iso"@ {
            Some(Geometry::ISO)
        } else if word == "iso-angle-mod"@ {
            Some(Geometry::ISOOpti)
        } else if word == "ansi"@ {
            Some(Geometry::ANSI)
        } else if word == "ansi-angle-mod"@ {
            Some(Geometry::ANSIOpti)
        } else if word == "ortho"@ {
            Some(Geometry::Ortho)
        } else {
            None
        }
    }

    /// The board that a word in lower case names.
    pub fn named(word: &str) -> (res: Option<Geometry>)
        ensures
            res == Self::spec_named(word@),
    {
        let word = word.to_owned();
        if word == "iso".to_owned() {
            Some(Geometry::ISO)
        } else if word == "iso-angle-mod".to_owned() {
            Some(Geometry::ISOOpti)
        } else if word == "ansi".to_owned() {
            Some(Geometry::ANSI)
        } else if word == "ansi-angle-mod".to_owned() {
            Some(Geometry::ANSIOpti)
        } else if word == "ortho".to_owned() {
            Some(Geometry::Ortho)
        } else {
            None
        }
    }

    /// The board that a word names, whatever the case of its letters.
    pub fn parse(s: &str) -> (res: Option<Geometry>)
        ensures
            res == Self::spec_named(lowercase_of(s@)),
    {
        let word = to_lowercase(s);
        Self::named(word.as_str())
    }
}

impl std::str::FromStr for Geometry {
    type Err = String;

    /// The board that a word names, whatever the case of its letters, or
    /// else a message that holds the word.
    fn from_str(s: &str) -> (res: Result<Self, Self::Err>)
        ensures
            match res {
                Ok(geometry) => Geometry::spec_named(lowercase_of(s@)) == Some(geometry),
                Err(message) => Geometry::spec_named(lowercase_of(s@)) is None && message@
                    == "Invalid geometry: "@ + s@,
            },
    {
        match Geometry::parse(s) {
            Some(geometry) => Ok(geometry),
            None => Err("Invalid geometry: ".to_owned().concat(s)),
        }
    }
}

} // verus!
