//! The sixteen dye colors and their network ids.

use vstd::prelude::*;

verus! {

/// A dye color; its network id is its position in this list.
#[derive(Debug, Clone, Copy, PartialEq, Eq, Structural)]
pub enum DyeColor {
    White,
    Orange,
    Magenta,
    LightBlue,
    Yellow,
    Lime,
    Pink,
    Gray,
    LightGray,
    Cyan,
    Purple,
    Blue,
    Brown,
    Green,
    Red,
    Black,
}

impl DyeColor {
    /// The network id of the color.
    pub open spec fn spec_id(self) -> i32 {
        match self {
            DyeColor::White => 0,
            DyeColor::Orange => 1,
            DyeColor::Magenta => 2,
            DyeColor::LightBlue => 3,
            DyeColor::Yellow => 4,
            DyeColor::Lime => 5,
            DyeColor::Pink => 6,
            DyeColor::Gray => 7,
            DyeColor::LightGray => 8,
            DyeColor::Cyan => 9,
            DyeColor::Purple => 10,
            DyeColor::Blue => 11,
            DyeColor::Brown => 12,
            DyeColor::Green => 13,
            DyeColor::Red => 14,
            DyeColor::Black => 15,
        }
    }

    /// The network id of the color.
    pub fn id(self) -> (res: i32)
        ensures
            res == self.spec_id(),
    {
        match self {
            DyeColor::White => 0,
            DyeColor::Orange => 1,
            DyeColor::Magenta => 2,
            DyeColor::LightBlue => 3,
            DyeColor::Yellow => 4,
            DyeColor::Lime => 5,
            DyeColor::Pink => 6,
            DyeColor::Gray => 7,
            DyeColor::LightGray => 8,
            DyeColor::Cyan => 9,
            DyeColor::Purple => 10,
            DyeColor::Blue => 11,
            DyeColor::Brown => 12,
            DyeColor::Green => 13,
            DyeColor::Red => 14,
            DyeColor::Black => 15,
        }
    }

    /// The color with network id `id`, if there is one.
    pub fn by_id(id: i32) -> (res: Option<DyeColor>)
        ensures
            res matches Some(c) ==> c.spec_id() == id,
            res is None <==> !(0 <= id < 16),
    {
        match id {
            0 => Some(DyeColor::White),
            1 => Some(DyeColor::Orange),
            2 => Some(DyeColor::Magenta),
            3 => Some(DyeColor::LightBlue),
            4 => Some(DyeColor::Yellow),
            5 => Some(DyeColor::Lime),
            6 => Some(DyeColor::Pink),
            7 => Some(DyeColor::Gray),
            8 => Some(DyeColor::LightGray),
            9 => Some(DyeColor::Cyan),
            10 => Some(DyeColor::Purple),
            11 => Some(DyeColor::Blue),
            12 => Some(DyeColor::Brown),
            13 => Some(DyeColor::Green),
            14 => Some(DyeColor::Red),
            15 => Some(DyeColor::Black),
            _ => None,
        }
    }
}

} // verus!
