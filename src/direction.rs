use vstd::prelude::*;

verus! {

/// A movement direction, or none at all.
#[derive(Clone, Copy, Debug, PartialEq, Eq, Structural)]
pub enum Direction {
    Stationary,
    Up,
    Right,
    Down,
    Left,
}

/// The legacy small-integer encoding of a direction.
pub open spec fn ordinal_of(d: Direction) -> u8 {
    match d {
        Direction::Up => 0,
        Direction::Right => 1,
        Direction::Down => 2,
        Direction::Left => 3,
        Direction::Stationary => 4,
    }
}

/// The direction that a legacy ordinal stands for, if any.
pub open spec fn direction_of_ordinal(v: u8) -> Option<Direction> {
    if v == 0 {
        Some(Direction::Up)
    } else if v == 1 {
        Some(Direction::Right)
    } else if v == 2 {
        Some(Direction::Down)
    } else if v == 3 {
        Some(Direction::Left)
    } else if v == 4 {
        Some(Direction::Stationary)
    } else {
        None
    }
}

impl Direction {
    /// The legacy ordinal: Up 0, Right 1, Down 2, Left 3, Stationary 4.
    pub fn ordinal(&self) -> (r: u8)
        ensures
            r == ordinal_of(*self),
    {
        match self {
            Direction::Up => 0,
            Direction::Right => 1,
            Direction::Down => 2,
            Direction::Left => 3,
            Direction::Stationary => 4,
        }
    }

    /// The direction for a legacy ordinal; `None` for values above 4.
    pub fn from_ordinal(v: u8) -> (r: Option<Direction>)
        ensures
            r == direction_of_ordinal(v),
    {
        if v == 0 {
            Some(Direction::Up)
        } else if v == 1 {
            Some(Direction::Right)
        } else if v == 2 {
            Some(Direction::Down)
        } else if v == 3 {
            Some(Direction::Left)
        } else if v == 4 {
            Some(Direction::Stationary)
        } else {
            None
        }
    }
}

/// Every direction survives the trip through its legacy ordinal.
pub proof fn lemma_ordinal_round_trip(d: Direction)
    ensures
        direction_of_ordinal(ordinal_of(d)) == Some(d),
{
}

/// The local player's movement intent.
#[derive(Clone, Copy, Debug, PartialEq, Eq, Structural)]
pub enum MovementCommand {
    Stop,
    Stationary,
    Move(Direction),
}

/// The local player's attack intent.
#[derive(Clone, Copy, Debug, PartialEq, Eq, Structural)]
pub enum AttackCommand {
    Stop,
    Cast,
}

} // verus!
