//! The speed factor: five levels, each with its throttle divisor.

use vstd::prelude::*;

verus! {

/// A speed value that is none of the five accepted ones.
#[derive(Clone, Copy, Debug, PartialEq, Eq, Structural)]
pub struct InvalidSpeedError;

/// One of the five speed levels. A higher level has a smaller divisor, so
/// the grid advances on more of the ticks.
#[derive(Clone, Copy, Debug, PartialEq, Eq, Structural)]
pub enum SpeedFactor {
    Level1,
    Level2,
    Level3,
    Level4,
    Level5,
}

/// The speed level that a number stands for, if it is from 1 to 5.
pub open spec fn speed_of_level(level: int) -> Option<SpeedFactor> {
    if level == 1 {
        Some(SpeedFactor::Level1)
    } else if level == 2 {
        Some(SpeedFactor::Level2)
    } else if level == 3 {
        Some(SpeedFactor::Level3)
    } else if level == 4 {
        Some(SpeedFactor::Level4)
    } else if level == 5 {
        Some(SpeedFactor::Level5)
    } else {
        None
    }
}

/// The speed level that a text stands for: the single digit `1` to `5`, and
/// nothing else.
pub open spec fn speed_of_text(text: Seq<char>) -> Option<SpeedFactor> {
    if text.len() != 1 {
        None
    } else if text[0] == '1' {
        Some(SpeedFactor::Level1)
    } else if text[0] == '2' {
        Some(SpeedFactor::Level2)
    } else if text[0] == '3' {
        Some(SpeedFactor::Level3)
    } else if text[0] == '4' {
        Some(SpeedFactor::Level4)
    } else if text[0] == '5' {
        Some(SpeedFactor::Level5)
    } else {
        None
    }
}

impl SpeedFactor {
    /// The number of the level, from 1 to 5.
    pub open spec fn spec_level(self) -> int {
        match self {
            SpeedFactor::Level1 => 1,
            SpeedFactor::Level2 => 2,
            SpeedFactor::Level3 => 3,
            SpeedFactor::Level4 => 4,
            SpeedFactor::Level5 => 5,
        }
    }

    /// The throttle divisor of the level: 7, 5, 3, 2, 1 for the levels 1 to 5.
    pub open spec fn spec_divisor(self) -> int {
        match self {
            SpeedFactor::Level1 => 7,
            SpeedFactor::Level2 => 5,
            SpeedFactor::Level3 => 3,
            SpeedFactor::Level4 => 2,
            SpeedFactor::Level5 => 1,
        }
    }

    /// The speed factor of a level from 1 to 5; any other number is rejected.
    pub fn from_level(level: u8) -> (result: Result<SpeedFactor, InvalidSpeedError>)
        ensures
            match result {
                Ok(speed) => speed_of_level(level as int) == Some(speed),
                Err(_) => speed_of_level(level as int) is None,
            },
    {
        if level == 1 {
            Ok(SpeedFactor::Level1)
        } else if level == 2 {
            Ok(SpeedFactor::Level2)
        } else if level == 3 {
            Ok(SpeedFactor::Level3)
        } else if level == 4 {
            Ok(SpeedFactor::Level4)
        } else if level == 5 {
            Ok(SpeedFactor::Level5)
        } else {
            Err(InvalidSpeedError)
        }
    }

    /// Reads a speed factor from one of the literals `1` to `5`; any other
    /// text is rejected.
    pub fn parse(text: &str) -> (result: Result<SpeedFactor, InvalidSpeedError>)
        ensures
            match result {
                Ok(speed) => speed_of_text(text@) == Some(speed),
                Err(_) => speed_of_text(text@) is None,
            },
    {
        if text.unicode_len() != 1 {
            return Err(InvalidSpeedError);
        }
        let digit = text.get_char(0);
        if digit == '1' {
            Ok(SpeedFactor::Level1)
        } else if digit == '2' {
            Ok(SpeedFactor::Level2)
        } else if digit == '3' {
            Ok(SpeedFactor::Level3)
        } else if digit == '4' {
            Ok(SpeedFactor::Level4)
        } else if digit == '5' {
            Ok(SpeedFactor::Level5)
        } else {
            Err(InvalidSpeedError)
        }
    }

    /// The number of the level.
    pub fn level(self) -> (level: u8)
        ensures
            level == self.spec_level(),
    {
        match self {
            SpeedFactor::Level1 => 1,
            SpeedFactor::Level2 => 2,
            SpeedFactor::Level3 => 3,
            SpeedFactor::Level4 => 4,
            SpeedFactor::Level5 => 5,
        }
    }

    /// The throttle divisor: the grid advances on every tick whose number
    /// the divisor divides.
    pub fn divisor(self) -> (divisor: u64)
        ensures
            divisor == self.spec_divisor(),
    {
        match self {
            SpeedFactor::Level1 => 7,
            SpeedFactor::Level2 => 5,
            SpeedFactor::Level3 => 3,
            SpeedFactor::Level4 => 2,
            SpeedFactor::Level5 => 1,
        }
    }
}

/// A higher level has a smaller divisor than a lower one.
pub proof fn lemma_faster_level_smaller_divisor(a: SpeedFactor, b: SpeedFactor)
    requires
        a.spec_level() < b.spec_level(),
    ensures
        a.spec_divisor() > b.spec_divisor(),
{
}

} // verus!
