//! Input-control state: axis motions, the nine-way direction they combine
//! into, and the per-tick control record filled from the pressed keys.

use vstd::prelude::*;

verus! {

/// Placeholder for a keyboard binding table; the engine reads raw key
/// state directly for now.
pub struct KeyboardDef {}

/// Motion of one input axis.
#[derive(Debug, Clone, Copy, PartialEq, Eq, Structural)]
pub enum Motion {
    Left,
    Up,
    Neutral,
    Right,
    Down,
}

/// The signed unit value of an axis motion: left and up count negative,
/// right and down positive.
pub open spec fn spec_motion_value(m: Motion) -> i16 {
    match m {
        Motion::Left | Motion::Up => -1i16,
        Motion::Neutral => 0i16,
        Motion::Right | Motion::Down => 1i16,
    }
}

impl Motion {
    /// The motion as a signed unit step.
    pub fn value(&self) -> (r: i16)
        ensures
            r == spec_motion_value(*self),
    {
        match self {
            Motion::Left | Motion::Up => -1,
            Motion::Neutral => 0,
            Motion::Right | Motion::Down => 1,
        }
    }
}

/// The nine-way direction of the two axis motions combined.
#[derive(Debug, Clone, Copy, PartialEq, Eq, Structural)]
pub enum Direction {
    NorthWest,
    North,
    NorthEast,
    West,
    Neutral,
    East,
    SouthWest,
    South,
    SouthEast,
}

/// The direction numbered row by row: (vertical + 1) * 3 + horizontal + 1,
/// each axis in -1, 0, 1.
pub open spec fn spec_direction_from(number: i16) -> Direction {
    if number == 0 {
        Direction::NorthWest
    } else if number == 1 {
        Direction::North
    } else if number == 2 {
        Direction::NorthEast
    } else if number == 3 {
        Direction::West
    } else if number == 4 {
        Direction::Neutral
    } else if number == 5 {
        Direction::East
    } else if number == 6 {
        Direction::SouthWest
    } else if number == 7 {
        Direction::South
    } else {
        Direction::SouthEast
    }
}

impl Direction {
    /// The direction for a combined axis number between 0 and 8.
    pub fn from(number: i16) -> (d: Direction)
        requires
            0 <= number <= 8,
        ensures
            d == spec_direction_from(number),
    {
        match number {
            0 => Direction::NorthWest,
            1 => Direction::North,
            2 => Direction::NorthEast,
            3 => Direction::West,
            4 => Direction::Neutral,
            5 => Direction::East,
            6 => Direction::SouthWest,
            7 => Direction::South,
            _ => Direction::SouthEast,
        }
    }
}

/// One tick's control state: button states, the scaled axis deflections,
/// the raw axis motions and their combined direction.
#[derive(Debug, Clone, PartialEq, Eq, Structural)]
pub struct ControlInfo {
    pub button0: bool,
    pub button1: bool,
    pub button2: bool,
    pub button3: bool,
    pub x: i16,
    pub y: i16,
    pub xaxis: Motion,
    pub yaxis: Motion,
    pub dir: Direction,
}

impl Default for ControlInfo {
    /// The all-neutral control state.
    fn default() -> (c: ControlInfo)
        ensures
            !c.button0 && !c.button1 && !c.button2 && !c.button3,
            c.x == 0 && c.y == 0,
            c.xaxis == Motion::Neutral && c.yaxis == Motion::Neutral,
            c.dir == Direction::Neutral,
    {
        ControlInfo {
            button0: false,
            button1: false,
            button2: false,
            button3: false,
            x: 0,
            y: 0,
            xaxis: Motion::Neutral,
            yaxis: Motion::Neutral,
            dir: Direction::Neutral,
        }
    }
}

/// Fills the control record from one tick's axis motions and button bits:
/// the deflections are the unit motions scaled by 127, the four buttons come
/// from the low bits of `buttons`, and the direction combines the two
/// motions; the stored horizontal motion is left as it was.
pub fn apply_control(info: &mut ControlInfo, mx: Motion, my: Motion, buttons: u16)
    ensures
        final(info).x == spec_motion_value(mx) * 127,
        final(info).y == spec_motion_value(my) * 127,
        final(info).xaxis == old(info).xaxis,
        final(info).yaxis == my,
        final(info).button0 == ((buttons & 1) != 0),
        final(info).button1 == ((buttons & 2) != 0),
        final(info).button2 == ((buttons & 4) != 0),
        final(info).button3 == ((buttons & 8) != 0),
        final(info).dir == spec_direction_from(
            (((spec_motion_value(my) + 1) * 3 + spec_motion_value(mx) + 1) as i16),
        ),
{
    info.x = mx.value() * 127;
    info.y = my.value() * 127;
    info.yaxis = my;
    info.button0 = (buttons & 1) != 0;
    info.button1 = (buttons & 2) != 0;
    info.button2 = (buttons & 4) != 0;
    info.button3 = (buttons & 8) != 0;
    info.dir = Direction::from((my.value() + 1) * 3 + mx.value() + 1);
}

} // verus!
