//! Tags that say which kind of board animation a signal belongs to.

use vstd::prelude::*;
use vstd::std_specs::convert::FromSpecImpl;
use vstd::std_specs::convert::TryFromSpecImpl;

verus! {

/// The kind of board animation that a signal belongs to.
#[derive(Debug, PartialEq, Eq, Structural)]
pub enum AnimationType {
    /// No animation of the board.
    Untagged,
    /// A gem falling into its tile.
    Fall,
    /// A cleared group flying towards the enemy.
    Combo,
}

impl AnimationType {
    /// The number that stands for this tag in a completion signal.
    pub open spec fn code(self) -> u64 {
        match self {
            AnimationType::Untagged => 0,
            AnimationType::Fall => 1,
            AnimationType::Combo => 2,
        }
    }

    /// The tag that a number stands for, if it stands for one.
    pub open spec fn decode(value: u64) -> Result<AnimationType, u64> {
        if value == 0 {
            Ok(AnimationType::Untagged)
        } else if value == 1 {
            Ok(AnimationType::Fall)
        } else if value == 2 {
            Ok(AnimationType::Combo)
        } else {
            Err(value)
        }
    }

    /// Decoding the code of a tag gives the tag back.
    pub proof fn code_round_trip(self)
        ensures
            Self::decode(self.code()) == Ok::<AnimationType, u64>(self),
    {
    }

    /// A number decodes to a tag exactly when it is the code of that tag, and
    /// any other number comes back as the error.
    pub proof fn decode_inverts_code(value: u64)
        ensures
            match Self::decode(value) {
                Ok(tag) => tag.code() == value,
                Err(rejected) => rejected == value && forall|tag: AnimationType| tag.code() != value,
            },
    {
    }
}

impl From<AnimationType> for u64 {
    fn from(value: AnimationType) -> (code: u64)
        ensures
            code == value.code(),
    {
        match value {
            AnimationType::Untagged => 0,
            AnimationType::Fall => 1,
            AnimationType::Combo => 2,
        }
    }
}

impl FromSpecImpl<AnimationType> for u64 {
    open spec fn obeys_from_spec() -> bool {
        true
    }

    open spec fn from_spec(value: AnimationType) -> u64 {
        value.code()
    }
}

impl TryFrom<u64> for AnimationType {
    type Error = u64;

    fn try_from(value: u64) -> (tag: Result<AnimationType, u64>)
        ensures
            tag == AnimationType::decode(value),
    {
        match value {
            0 => Ok(AnimationType::Untagged),
            1 => Ok(AnimationType::Fall),
            2 => Ok(AnimationType::Combo),
            _ => Err(value),
        }
    }
}

impl TryFromSpecImpl<u64> for AnimationType {
    open spec fn obeys_try_from_spec() -> bool {
        true
    }

    open spec fn try_from_spec(value: u64) -> Result<AnimationType, u64> {
        AnimationType::decode(value)
    }
}

} // verus!
