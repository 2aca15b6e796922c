//! Tags that tell the completion signals of position animations apart, and
//! the count of the signals that the board waits for.

use vstd::prelude::*;
use vstd::std_specs::convert::FromSpecImpl;
use vstd::std_specs::convert::TryFromSpecImpl;

verus! {

/// What a finished position animation was for.
#[derive(Debug, PartialEq, Eq, Clone, Copy, Structural)]
pub enum TweenType {
    /// An animation that nobody waits for.
    Untagged,
    /// A gem that fell into its tile.
    Fall,
}

impl TweenType {
    /// The number that stands for this tag in a completion signal.
    pub open spec fn code(self) -> u64 {
        match self {
            TweenType::Untagged => 0,
            TweenType::Fall => 1,
        }
    }

    /// The tag that a number stands for, if it stands for one.
    pub open spec fn decode(value: u64) -> Result<TweenType, u64> {
        if value == 0 {
            Ok(TweenType::Untagged)
        } else if value == 1 {
            Ok(TweenType::Fall)
        } else {
            Err(value)
        }
    }

    /// Decoding the code of a tag gives the tag back.
    pub proof fn code_round_trip(self)
        ensures
            Self::decode(self.code()) == Ok::<TweenType, u64>(self),
    {
    }

    /// A number decodes to a tag exactly when it is the code of that tag, and
    /// any other number comes back as the error.
    pub proof fn decode_inverts_code(value: u64)
        ensures
            match Self::decode(value) {
                Ok(tag) => tag.code() == value,
                Err(rejected) => rejected == value && forall|tag: TweenType| tag.code() != value,
            },
    {
    }
}

impl From<TweenType> for u64 {
    fn from(value: TweenType) -> (code: u64)
        ensures
            code == value.code(),
    {
        match value {
            TweenType::Untagged => 0,
            TweenType::Fall => 1,
        }
    }
}

impl FromSpecImpl<TweenType> for u64 {
    open spec fn obeys_from_spec() -> bool {
        true
    }

    open spec fn from_spec(value: TweenType) -> u64 {
        value.code()
    }
}

impl TryFrom<u64> for TweenType {
    type Error = u64;

    fn try_from(value: u64) -> (tag: Result<TweenType, u64>)
        ensures
            tag == TweenType::decode(value),
    {
        match value {
            0 => Ok(TweenType::Untagged),
            1 => Ok(TweenType::Fall),
            _ => Err(value),
        }
    }
}

impl TryFromSpecImpl<u64> for TweenType {
    open spec fn obeys_try_from_spec() -> bool {
        true
    }

    open spec fn try_from_spec(value: u64) -> Result<TweenType, u64> {
        TweenType::decode(value)
    }
}

/// How many of the tags stand for a gem that fell into its tile.
pub open spec fn falls_done(tags: Seq<u64>) -> nat
    decreases tags.len(),
{
    if tags.len() == 0 {
        0
    } else {
        falls_done(tags.drop_last()) + if TweenType::decode(tags.last()) == Ok::<TweenType, u64>(
            TweenType::Fall,
        ) {
            1nat
        } else {
            0nat
        }
    }
}

/// How many of the finished animations were falls, going by the tags that
/// their completion signals carry. Tags of other animations and numbers
/// that are no tag are not counted.
pub fn count_fall_completions(tags: &Vec<u64>) -> (count: usize)
    ensures
        count == falls_done(tags@),
{
    let mut count: usize = 0;
    let mut i: usize = 0;
    proof {
        assert(tags@.take(0) =~= Seq::empty());
    }
    while i < tags.len()
        invariant
            i <= tags@.len(),
            count <= i,
            count == falls_done(tags@.take(i as int)),
        decreases tags@.len() - i,
    {
        proof {
            assert(tags@.take(i + 1).drop_last() =~= tags@.take(i as int));
        }
        match TweenType::try_from(tags[i]) {
            Ok(TweenType::Fall) => {
                count += 1;
            },
            _ => {},
        }
        i += 1;
    }
    proof {
        assert(tags@.take(tags@.len() as int) =~= tags@);
    }
    count
}

} // verus!
