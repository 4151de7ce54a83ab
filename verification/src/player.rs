//! Player movement intents and the per-tick movement decisions: where the
//! movement angle points for a combination of intents, and which axes a
//! candidate step may move along given the collision probes of the player's
//! bounding square.

use vstd::prelude::*;

verus! {

/// Forward or backward movement intent.
#[derive(Debug, Clone, Copy, PartialEq, Eq, Structural)]
pub enum StraightMovement {
    Forward,
    Backward,
}

/// Strafing intent.
#[derive(Debug, Clone, Copy, PartialEq, Eq, Structural)]
pub enum SideMovement {
    StrafeRight,
    StrafeLeft,
}

/// Turning intent.
#[derive(Debug, Clone, Copy, PartialEq, Eq, Structural)]
pub enum TurnMovement {
    TurnRight,
    TurnLeft,
}

/// Where a freshly loaded player stands: position in player-scale units and
/// the facing read from the map's actor plane.
#[derive(Debug, Clone, Copy, PartialEq, Eq, Structural)]
pub struct PlayerStart {
    pub x: u32,
    pub y: u32,
    pub facing: crate::tilemap::Direction,
}

/// The movement angle for a combination of intents, as a signed multiple of
/// an eighth turn (45 degrees) to add to the view angle; `None` when neither
/// intent is active and the movement angle keeps its previous value.
pub open spec fn spec_move_angle_eighths(
    straight: Option<StraightMovement>,
    side: Option<SideMovement>,
) -> Option<i8> {
    match straight {
        Some(StraightMovement::Forward) => match side {
            Some(SideMovement::StrafeLeft) => Some(1i8),
            Some(SideMovement::StrafeRight) => Some(-1i8),
            None => Some(0i8),
        },
        Some(StraightMovement::Backward) => match side {
            Some(SideMovement::StrafeLeft) => Some(-5i8),
            Some(SideMovement::StrafeRight) => Some(-3i8),
            None => Some(-4i8),
        },
        None => match side {
            Some(SideMovement::StrafeLeft) => Some(2i8),
            Some(SideMovement::StrafeRight) => Some(-2i8),
            None => None,
        },
    }
}

/// Combines the straight and strafe intents into a movement direction,
/// returned as a signed multiple of an eighth turn (45 degrees) relative to
/// the view angle. `None` means no movement this tick: the movement angle is
/// left as it was.
pub fn move_angle_eighths(straight: Option<StraightMovement>, side: Option<SideMovement>) -> (r:
    Option<i8>)
    ensures
        r == spec_move_angle_eighths(straight, side),
{
    match straight {
        Some(StraightMovement::Forward) => match side {
            Some(SideMovement::StrafeLeft) => Some(1i8),
            Some(SideMovement::StrafeRight) => Some(-1i8),
            None => Some(0i8),
        },
        Some(StraightMovement::Backward) => match side {
            Some(SideMovement::StrafeLeft) => Some(-5i8),
            Some(SideMovement::StrafeRight) => Some(-3i8),
            None => Some(-4i8),
        },
        None => match side {
            Some(SideMovement::StrafeLeft) => Some(2i8),
            Some(SideMovement::StrafeRight) => Some(-2i8),
            None => None,
        },
    }
}

/// Which axes a candidate step moves along, given the three collision probes
/// of the player's square at the candidate position: `slide_x` — the vertex
/// that probes the x axis alone hit a wall; `slide_y` — the vertex that
/// probes the y axis alone; `corner` — the diagonal vertex; `x_farther` —
/// the candidate corner is farther from the nearest grid line on x than on
/// y. When only the diagonal vertex collides, the axis farther from its grid
/// line moves, so the player slides instead of stopping; otherwise each axis
/// moves exactly when its own probe is clear.
pub open spec fn spec_walk_axes(slide_x: bool, slide_y: bool, corner: bool, x_farther: bool) -> (
    bool,
    bool,
) {
    if corner && !slide_x && !slide_y {
        if x_farther {
            (true, false)
        } else {
            (false, true)
        }
    } else {
        (!slide_x, !slide_y)
    }
}

/// Decides which axes the candidate step may move along; see
/// [`spec_walk_axes`] for the probe inputs.
pub fn walk_axes(slide_x: bool, slide_y: bool, corner: bool, x_farther: bool) -> (r: (bool, bool))
    ensures
        r == spec_walk_axes(slide_x, slide_y, corner, x_farther),
{
    if corner && !slide_x && !slide_y {
        if x_farther {
            (true, false)
        } else {
            (false, true)
        }
    } else {
        (!slide_x, !slide_y)
    }
}

/// Walking straight into a wall on one axis, with the other axis clear,
/// suppresses motion on the blocked axis only: the clear axis still moves.
pub proof fn lemma_single_axis_block(slide_x: bool, slide_y: bool, corner: bool, x_farther: bool)
    ensures
        slide_x && !slide_y ==> spec_walk_axes(slide_x, slide_y, corner, x_farther) == (
            false,
            true,
        ),
        slide_y && !slide_x ==> spec_walk_axes(slide_x, slide_y, corner, x_farther) == (
            true,
            false,
        ),
{
}

/// Moving diagonally into a concave corner — both single-axis probes clear
/// but the diagonal vertex colliding — slides along exactly one axis: never
/// a full stop, and never movement on both axes at once.
pub proof fn lemma_corner_slide(slide_x: bool, slide_y: bool, corner: bool, x_farther: bool)
    requires
        corner,
        !slide_x,
        !slide_y,
    ensures
        spec_walk_axes(slide_x, slide_y, corner, x_farther).0 != spec_walk_axes(
            slide_x,
            slide_y,
            corner,
            x_farther,
        ).1,
{
}

} // verus!
