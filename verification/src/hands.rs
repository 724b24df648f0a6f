//! Fingers and hands, and the relations between fingers that the
//! classification of bigrams and trigrams rests on.

use crate::kalamine::PhysicalKey;
use vstd::prelude::*;

verus! {

/// One of the eight typing fingers, or the thumb.
///
/// The variants are declared in ordinal order, so that the derived ordering
/// agrees with [`Finger::index`].
#[derive(Debug, Clone, Copy, PartialOrd, Ord, PartialEq, Eq, Hash, Structural)]
pub enum Finger {
    Thumb,
    LeftPinky,
    LeftRing,
    LeftMiddle,
    LeftIndex,
    RightIndex,
    RightMiddle,
    RightRing,
    RightPinky,
}

/// The side a finger belongs to. The thumbs form a side of their own.
#[derive(Debug, Clone, Copy, PartialOrd, Ord, PartialEq, Eq, Hash, Structural)]
pub enum Hand {
    Left,
    Right,
    Thumbs,
}

/// How the second finger of a bigram lies relative to the first.
#[derive(Debug, Clone, Copy, PartialEq, Eq, Structural)]
pub enum RollDirection {
    Inside,
    Outside,
    SameFinger,
    DifferentHands,
}

impl Finger {
    /// The ordinal of the finger: the thumb is 0, then the fingers from the
    /// left pinky (1) across both hands to the right pinky (8).
    pub open spec fn spec_index(self) -> u32 {
        match self {
            Finger::Thumb => 0,
            Finger::LeftPinky => 1,
            Finger::LeftRing => 2,
            Finger::LeftMiddle => 3,
            Finger::LeftIndex => 4,
            Finger::RightIndex => 5,
            Finger::RightMiddle => 6,
            Finger::RightRing => 7,
            Finger::RightPinky => 8,
        }
    }

    #[verifier::when_used_as_spec(spec_index)]
    pub fn index(self) -> (i: u32)
        ensures
            i == self.spec_index(),
            i <= 8,
    {
        match self {
            Finger::Thumb => 0,
            Finger::LeftPinky => 1,
            Finger::LeftRing => 2,
            Finger::LeftMiddle => 3,
            Finger::LeftIndex => 4,
            Finger::RightIndex => 5,
            Finger::RightMiddle => 6,
            Finger::RightRing => 7,
            Finger::RightPinky => 8,
        }
    }

    pub open spec fn spec_hand(&self) -> Hand {
        match *self {
            Finger::LeftPinky | Finger::LeftRing | Finger::LeftMiddle | Finger::LeftIndex => Hand::Left,
            Finger::RightIndex | Finger::RightMiddle | Finger::RightRing | Finger::RightPinky => Hand::Right,
            Finger::Thumb => Hand::Thumbs,
        }
    }

    /// The hand the finger belongs to.
    #[verifier::when_used_as_spec(spec_hand)]
    pub fn hand(&self) -> (h: Hand)
        ensures
            h == self.spec_hand(),
    {
        match self {
            Finger::LeftPinky | Finger::LeftRing | Finger::LeftMiddle | Finger::LeftIndex => Hand::Left,
            Finger::RightIndex | Finger::RightMiddle | Finger::RightRing | Finger::RightPinky => Hand::Right,
            Finger::Thumb => Hand::Thumbs,
        }
    }

    /// The distance between two fingers of one hand, counted in fingers.
    /// Fingers of different hands have no distance.
    pub open spec fn spec_distance(f1: Finger, f2: Finger) -> Option<u32> {
        if f1.spec_hand() != f2.spec_hand() {
            None
        } else if f1.spec_index() >= f2.spec_index() {
            Some((f1.spec_index() - f2.spec_index()) as u32)
        } else {
            Some((f2.spec_index() - f1.spec_index()) as u32)
        }
    }

    #[verifier::when_used_as_spec(spec_distance)]
    pub fn distance(f1: Finger, f2: Finger) -> (d: Option<u32>)
        ensures
            d == Self::spec_distance(f1, f2),
    {
        if f1.hand() != f2.hand() {
            return None;
        }
        let i1: u32 = f1.index();
        let i2: u32 = f2.index();
        if i1 >= i2 {
            Some(i1 - i2)
        } else {
            Some(i2 - i1)
        }
    }

    /// The direction of the roll from `self` to `second_finger`.
    ///
    /// On the left hand a roll goes inside when the ordinal grows (pinky to
    /// index); on the right hand when it shrinks.
    pub open spec fn spec_roll_direction(&self, second_finger: Finger) -> RollDirection {
        if *self == second_finger {
            RollDirection::SameFinger
        } else if self.spec_hand() != second_finger.spec_hand() {
            RollDirection::DifferentHands
        } else if self.spec_hand() == Hand::Left {
            if second_finger.spec_index() > self.spec_index() {
                RollDirection::Inside
            } else {
                RollDirection::Outside
            }
        } else {
            if second_finger.spec_index() > self.spec_index() {
                RollDirection::Outside
            } else {
                RollDirection::Inside
            }
        }
    }

    #[verifier::when_used_as_spec(spec_roll_direction)]
    pub fn roll_direction(&self, second_finger: Finger) -> (r: RollDirection)
        ensures
            r == self.spec_roll_direction(second_finger),
    {
        if *self == second_finger {
            RollDirection::SameFinger
        } else if self.hand() != second_finger.hand() {
            RollDirection::DifferentHands
        } else if self.hand() == Hand::Left {
            if second_finger.index() > self.index() {
                RollDirection::Inside
            } else {
                RollDirection::Outside
            }
        } else {
            if second_finger.index() > self.index() {
                RollDirection::Outside
            } else {
                RollDirection::Inside
            }
        }
    }

    /// The rank of the finger among those that like to sit on a higher
    /// row: the index fingers like it most, then the middle fingers, the
    /// ring fingers and the pinkies, and the thumb likes it least.
    pub open spec fn spec_prefered_height(&self) -> u32 {
        match *self {
            Finger::Thumb => 0,
            Finger::LeftPinky | Finger::RightPinky => 1,
            Finger::LeftRing | Finger::RightRing => 2,
            Finger::LeftMiddle | Finger::RightMiddle => 3,
            Finger::LeftIndex | Finger::RightIndex => 4,
        }
    }

    #[verifier::when_used_as_spec(spec_prefered_height)]
    pub fn prefered_height(&self) -> (h: u32)
        ensures
            h == self.spec_prefered_height(),
    {
        match self {
            Finger::Thumb => 0,
            Finger::LeftPinky | Finger::RightPinky => 1,
            Finger::LeftRing | Finger::RightRing => 2,
            Finger::LeftMiddle | Finger::RightMiddle => 3,
            Finger::LeftIndex | Finger::RightIndex => 4,
        }
    }

    pub open spec fn spec_prefers_being_higher(&self, other_finger: Finger) -> bool {
        self.spec_prefered_height() > other_finger.spec_prefered_height()
    }

    /// Whether `self` is more at ease on a higher row than `other_finger`.
    #[verifier::when_used_as_spec(spec_prefers_being_higher)]
    pub fn prefers_being_higher(&self, other_finger: Finger) -> (b: bool)
        ensures
            b == self.spec_prefers_being_higher(other_finger),
    {
        self.prefered_height() > other_finger.prefered_height()
    }

    /// Every finger once, from the left pinky across to the right pinky,
    /// then the thumb.
    pub open spec fn spec_all() -> Seq<Finger> {
        seq![
            Finger::LeftPinky,
            Finger::LeftRing,
            Finger::LeftMiddle,
            Finger::LeftIndex,
            Finger::RightIndex,
            Finger::RightMiddle,
            Finger::RightRing,
            Finger::RightPinky,
            Finger::Thumb,
        ]
    }

    /// The place of the finger in [`Finger::spec_all`].
    pub open spec fn spec_position(self) -> usize {
        if self == Finger::Thumb {
            8
        } else {
            (self.spec_index() - 1) as usize
        }
    }

    #[verifier::when_used_as_spec(spec_position)]
    pub fn position(self) -> (p: usize)
        ensures
            p == self.spec_position(),
            p < 9,
            Finger::spec_all()[p as int] == self,
    {
        match self {
            Finger::LeftPinky => 0,
            Finger::LeftRing => 1,
            Finger::LeftMiddle => 2,
            Finger::LeftIndex => 3,
            Finger::RightIndex => 4,
            Finger::RightMiddle => 5,
            Finger::RightRing => 6,
            Finger::RightPinky => 7,
            Finger::Thumb => 8,
        }
    }

    pub fn all() -> (v: Vec<Finger>)
        ensures
            v@ == Finger::spec_all(),
    {
        let v = vec![
            Finger::LeftPinky,
            Finger::LeftRing,
            Finger::LeftMiddle,
            Finger::LeftIndex,
            Finger::RightIndex,
            Finger::RightMiddle,
            Finger::RightRing,
            Finger::RightPinky,
            Finger::Thumb,
        ];
        assert(v@ =~= Finger::spec_all());
        v
    }
}

impl Hand {
    /// Every hand once: left, right, thumbs.
    pub open spec fn spec_all() -> Seq<Hand> {
        seq![Hand::Left, Hand::Right, Hand::Thumbs]
    }

    /// The place of the hand in [`Hand::spec_all`].
    pub open spec fn spec_position(self) -> usize {
        match self {
            Hand::Left => 0,
            Hand::Right => 1,
            Hand::Thumbs => 2,
        }
    }

    #[verifier::when_used_as_spec(spec_position)]
    pub fn position(self) -> (p: usize)
        ensures
            p == self.spec_position(),
            p < 3,
            Hand::spec_all()[p as int] == self,
    {
        match self {
            Hand::Left => 0,
            Hand::Right => 1,
            Hand::Thumbs => 2,
        }
    }

    pub fn all() -> (v: Vec<Hand>)
        ensures
            v@ == Hand::spec_all(),
    {
        let v = vec![Hand::Left, Hand::Right, Hand::Thumbs];
        assert(v@ =~= Hand::spec_all());
        v
    }
}

/// Two fingers have a distance exactly when they share a hand; neither is
/// then the thumb unless both are. The distance is the difference of their
/// ordinals, it is zero from a finger to itself, and it does not depend on
/// the order of the two.
pub proof fn lemma_finger_distance(f1: Finger, f2: Finger)
    ensures
        f1.spec_hand() != f2.spec_hand() ==> Finger::spec_distance(f1, f2) is None,
        (f1 == Finger::Thumb) != (f2 == Finger::Thumb) ==> Finger::spec_distance(f1, f2) is None,
        f1.spec_hand() == f2.spec_hand() ==> Finger::spec_distance(f1, f2) == Some(
            vstd::math::abs(f1.spec_index() - f2.spec_index()) as u32,
        ),
        Finger::spec_distance(f1, f1) == Some(0u32),
        Finger::spec_distance(f1, f2) == Finger::spec_distance(f2, f1),
        Finger::spec_distance(f1, f2) == Some(0u32) <==> f1 == f2,
        Finger::spec_distance(f1, f2) matches Some(d) ==> d <= 3,
{
}

/// Of two different fingers of one hand one prefers being higher than the
/// other, and never both; no finger prefers being higher than itself, and
/// every finger prefers being higher than the thumb. The index finger
/// prefers being higher than the middle finger, the middle finger than the
/// ring finger, and the ring finger than the pinky.
pub proof fn lemma_height_preference(f1: Finger, f2: Finger)
    ensures
        !f1.spec_prefers_being_higher(f1),
        !(f1.spec_prefers_being_higher(f2) && f2.spec_prefers_being_higher(f1)),
        f1 != f2 && f1.spec_hand() == f2.spec_hand() ==> f1.spec_prefers_being_higher(f2)
            || f2.spec_prefers_being_higher(f1),
        f1 != Finger::Thumb ==> f1.spec_prefers_being_higher(Finger::Thumb),
        Finger::LeftIndex.spec_prefers_being_higher(Finger::LeftMiddle),
        Finger::LeftMiddle.spec_prefers_being_higher(Finger::LeftRing),
        Finger::LeftRing.spec_prefers_being_higher(Finger::LeftPinky),
        Finger::RightIndex.spec_prefers_being_higher(Finger::RightMiddle),
        Finger::RightMiddle.spec_prefers_being_higher(Finger::RightRing),
        Finger::RightRing.spec_prefers_being_higher(Finger::RightPinky),
{
}

/// A roll has a direction only between two different fingers of one hand,
/// and the way back then goes the other direction.
pub proof fn lemma_roll_direction_reverses(f1: Finger, f2: Finger)
    ensures
        f1.spec_roll_direction(f2) == RollDirection::Inside <==> f2.spec_roll_direction(f1)
            == RollDirection::Outside,
        f1.spec_roll_direction(f2) == RollDirection::SameFinger <==> f1 == f2,
        f1.spec_roll_direction(f2) == RollDirection::DifferentHands <==> f1.spec_hand()
            != f2.spec_hand(),
        (f1 == Finger::Thumb || f2 == Finger::Thumb) ==> f1.spec_roll_direction(f2)
            != RollDirection::Inside && f1.spec_roll_direction(f2) != RollDirection::Outside,
{
}

impl Finger {
    /// The finger that presses a key.
    pub fn from(input: PhysicalKey) -> (f: Finger)
        ensures
            f == input.spec_finger(),
    {
        input.finger()
    }
}

} // verus!
