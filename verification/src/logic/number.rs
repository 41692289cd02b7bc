use vstd::arithmetic::power2::{lemma2_to64, pow2};
use vstd::prelude::*;

verus! {

/// A rank of the tile ladder. The ladder is closed: it has seventeen ranks,
/// shown on a tile as 2, 4, 8, ... 131072.
#[derive(Debug, Clone, Copy, PartialEq, Eq, Structural)]
pub enum Number {
    ZERO,
    ONE,
    TWO,
    THREE,
    FOUR,
    FIVE,
    SIX,
    SEVEN,
    EIGHT,
    NINE,
    TEN,
    ELEVEN,
    TWELVE,
    THIRTEEN,
    FOURTEEN,
    FIFTEEN,
    SIXTEEN,
}

/// The ordinal of the highest rank.
pub const TOP_RANK: u8 = 16;

impl Number {
    /// The ordinal of this rank on the ladder, from 0 to 16.
    pub open spec fn rank(self) -> int {
        match self {
            Number::ZERO => 0,
            Number::ONE => 1,
            Number::TWO => 2,
            Number::THREE => 3,
            Number::FOUR => 4,
            Number::FIVE => 5,
            Number::SIX => 6,
            Number::SEVEN => 7,
            Number::EIGHT => 8,
            Number::NINE => 9,
            Number::TEN => 10,
            Number::ELEVEN => 11,
            Number::TWELVE => 12,
            Number::THIRTEEN => 13,
            Number::FOURTEEN => 14,
            Number::FIFTEEN => 15,
            Number::SIXTEEN => 16,
        }
    }

    /// The rank one step up the ladder; the top rank is its own successor.
    pub open spec fn promoted(self) -> Number {
        match self {
            Number::ZERO => Number::ONE,
            Number::ONE => Number::TWO,
            Number::TWO => Number::THREE,
            Number::THREE => Number::FOUR,
            Number::FOUR => Number::FIVE,
            Number::FIVE => Number::SIX,
            Number::SIX => Number::SEVEN,
            Number::SEVEN => Number::EIGHT,
            Number::EIGHT => Number::NINE,
            Number::NINE => Number::TEN,
            Number::TEN => Number::ELEVEN,
            Number::ELEVEN => Number::TWELVE,
            Number::TWELVE => Number::THIRTEEN,
            Number::THIRTEEN => Number::FOURTEEN,
            Number::FOURTEEN => Number::FIFTEEN,
            Number::FIFTEEN => Number::SIXTEEN,
            Number::SIXTEEN => Number::SIXTEEN,
        }
    }

    /// The number shown on a tile of this rank: two to the power `rank + 1`.
    pub fn value(&self) -> (v: i32)
        ensures
            v == pow2((self.rank() + 1) as nat),
    {
        proof {
            lemma2_to64();
        }
        match self {
            Self::ZERO => 2,
            Self::ONE => 4,
            Self::TWO => 8,
            Self::THREE => 16,
            Self::FOUR => 32,
            Self::FIVE => 64,
            Self::SIX => 128,
            Self::SEVEN => 256,
            Self::EIGHT => 512,
            Self::NINE => 1024,
            Self::TEN => 2048,
            Self::ELEVEN => 4096,
            Self::TWELVE => 8192,
            Self::THIRTEEN => 16384,
            Self::FOURTEEN => 32768,
            Self::FIFTEEN => 65536,
            Self::SIXTEEN => 131072,
        }
    }

    /// The rank that a merge promotes this one to. The top rank stays as it is.
    pub fn next(&self) -> (n: Self)
        ensures
            n == self.promoted(),
            n.rank() == if self.rank() < TOP_RANK { self.rank() + 1 } else { TOP_RANK as int },
    {
        match self {
            Self::ZERO => Self::ONE,
            Self::ONE => Self::TWO,
            Self::TWO => Self::THREE,
            Self::THREE => Self::FOUR,
            Self::FOUR => Self::FIVE,
            Self::FIVE => Self::SIX,
            Self::SIX => Self::SEVEN,
            Self::SEVEN => Self::EIGHT,
            Self::EIGHT => Self::NINE,
            Self::NINE => Self::TEN,
            Self::TEN => Self::ELEVEN,
            Self::ELEVEN => Self::TWELVE,
            Self::TWELVE => Self::THIRTEEN,
            Self::THIRTEEN => Self::FOURTEEN,
            Self::FOURTEEN => Self::FIFTEEN,
            Self::FIFTEEN => Self::SIXTEEN,
            Self::SIXTEEN => Self::SIXTEEN,
        }
    }
}

} // verus!
